use hikki::editor::{joins_top_group, Cursor, EditorBuffer, Selection};

#[test]
fn empty_buffer() {
    let buf = EditorBuffer::new();
    assert_eq!(buf.text(), "");
    assert_eq!(buf.cursor(), Cursor::new(0, 0));
    assert_eq!(buf.line_count(), 1); // ropey always has at least 1 line
    assert!(!buf.is_modified());
}

#[test]
fn from_text() {
    let buf = EditorBuffer::from_text("hello\nworld");
    assert_eq!(buf.text(), "hello\nworld");
    assert_eq!(buf.line_count(), 2);
    assert_eq!(buf.line_text(0), "hello");
    assert_eq!(buf.line_text(1), "world");
}

#[test]
fn insert_char_basic() {
    let mut buf = EditorBuffer::new();
    buf.insert_char('h');
    buf.insert_char('i');
    assert_eq!(buf.text(), "hi");
    assert_eq!(buf.cursor(), Cursor::new(0, 2));
    assert!(buf.is_modified());
}

#[test]
fn insert_newline() {
    let mut buf = EditorBuffer::from_text("hello");
    buf.set_cursor(0, 5);
    buf.insert_char('\n');
    assert_eq!(buf.text(), "hello\n");
    assert_eq!(buf.cursor(), Cursor::new(1, 0));
}

#[test]
fn delete_back() {
    let mut buf = EditorBuffer::from_text("abc");
    buf.set_cursor(0, 3);
    buf.delete_back();
    assert_eq!(buf.text(), "ab");
    assert_eq!(buf.cursor(), Cursor::new(0, 2));
}

#[test]
fn delete_back_at_start() {
    let mut buf = EditorBuffer::from_text("abc");
    buf.set_cursor(0, 0);
    buf.delete_back();
    assert_eq!(buf.text(), "abc");
}

#[test]
fn delete_forward() {
    let mut buf = EditorBuffer::from_text("abc");
    buf.set_cursor(0, 0);
    buf.delete_forward();
    assert_eq!(buf.text(), "bc");
}

#[test]
fn delete_line() {
    let mut buf = EditorBuffer::from_text("line1\nline2\nline3");
    buf.set_cursor(1, 0);
    buf.delete_line();
    assert_eq!(buf.text(), "line1\nline3");
}

#[test]
fn cursor_movement() {
    let mut buf = EditorBuffer::from_text("hello\nworld");
    buf.set_cursor(0, 0);
    buf.move_right();
    assert_eq!(buf.cursor(), Cursor::new(0, 1));
    buf.move_down();
    assert_eq!(buf.cursor(), Cursor::new(1, 1));
    buf.move_left();
    assert_eq!(buf.cursor(), Cursor::new(1, 0));
    buf.move_up();
    assert_eq!(buf.cursor(), Cursor::new(0, 0));
}

#[test]
fn move_to_line_start_end() {
    let mut buf = EditorBuffer::from_text("hello world");
    buf.set_cursor(0, 5);
    buf.move_to_line_start();
    assert_eq!(buf.cursor().col, 0);
    buf.move_to_line_end();
    assert_eq!(buf.cursor().col, 11);
}

#[test]
fn move_to_doc_start_end() {
    let mut buf = EditorBuffer::from_text("first\nsecond\nthird");
    buf.set_cursor(1, 3);
    buf.move_to_doc_start();
    assert_eq!(buf.cursor(), Cursor::new(0, 0));
    buf.move_to_doc_end();
    assert_eq!(buf.cursor().line, 2);
}

#[test]
fn word_movement() {
    let mut buf = EditorBuffer::from_text("hello world foo");
    buf.set_cursor(0, 0);
    buf.move_word_forward();
    assert_eq!(buf.cursor().col, 6); // start of "world"
    buf.move_word_forward();
    assert_eq!(buf.cursor().col, 12); // start of "foo"
    buf.move_word_backward();
    assert_eq!(buf.cursor().col, 6);
}

#[test]
fn editor_undo_redo() {
    let mut buf = EditorBuffer::new();
    // Every edit in a group of its own.
    buf.coalesce_ms = 0;
    buf.insert_char('a');
    buf.insert_char('b');
    assert_eq!(buf.text(), "ab");

    buf.undo();
    assert_eq!(buf.text(), "a");

    buf.redo();
    assert_eq!(buf.text(), "ab");
}

#[test]
fn selection() {
    let mut buf = EditorBuffer::from_text("hello world");
    buf.set_cursor(0, 0);
    buf.start_selection();
    buf.set_cursor(0, 5);
    buf.extend_selection_to_cursor();
    let text = buf.selected_text();
    assert_eq!(text.as_deref(), Some("hello"));
}

#[test]
fn yank_line() {
    let buf = EditorBuffer::from_text("first\nsecond\nthird");
    assert_eq!(buf.yank_line(), "first\n");
}

#[test]
fn insert_text_multiline() {
    let mut buf = EditorBuffer::new();
    buf.insert_text("hello\nworld");
    assert_eq!(buf.text(), "hello\nworld");
    assert_eq!(buf.cursor(), Cursor::new(1, 5));
}

#[test]
fn file_path() {
    let mut buf = EditorBuffer::new();
    assert!(buf.file_path().is_none());
    buf.set_file_path("test.md");
    assert_eq!(buf.file_path(), Some("test.md"));
}

#[test]
fn undo_restores_each_edit_kind() {
    let mut buf = EditorBuffer::from_text("one\ntwo\nthree");
    buf.coalesce_ms = 0;
    buf.set_cursor(1, 1);
    buf.delete_line();
    assert_eq!(buf.text(), "one\nthree");
    buf.undo();
    assert_eq!(buf.text(), "one\ntwo\nthree");
    buf.set_cursor(0, 3);
    buf.delete_forward();
    assert_eq!(buf.text(), "onetwo\nthree");
    buf.undo();
    assert_eq!(buf.text(), "one\ntwo\nthree");
    buf.paste_below("x\n");
    assert_eq!(buf.text(), "one\nx\ntwo\nthree");
    buf.undo();
    assert_eq!(buf.text(), "one\ntwo\nthree");
    buf.redo();
    assert_eq!(buf.text(), "one\nx\ntwo\nthree");
}

#[test]
fn grouped_edits_undo_and_redo_together() {
    let mut buf = EditorBuffer::new();
    // A long window: quick keystrokes join one group.
    buf.coalesce_ms = 60_000;
    buf.insert_char('a');
    buf.insert_char('b');
    buf.insert_char('c');
    buf.undo();
    assert_eq!(buf.text(), "");
    buf.redo();
    assert_eq!(buf.text(), "abc");
    buf.undo();
    assert_eq!(buf.text(), "");
}

#[test]
fn edits_drop_the_redo_history() {
    let mut buf = EditorBuffer::new();
    buf.coalesce_ms = 0;
    buf.insert_char('a');
    buf.undo();
    buf.insert_char('b');
    buf.redo();
    assert_eq!(buf.text(), "b");
}

#[test]
fn undo_and_redo_on_empty_histories_do_nothing() {
    let mut buf = EditorBuffer::from_text("keep");
    buf.undo();
    buf.redo();
    assert_eq!(buf.text(), "keep");
    assert!(!buf.is_modified());
}

#[test]
fn typing_replaces_the_selection() {
    let mut buf = EditorBuffer::from_text("hello world");
    buf.set_cursor(0, 6);
    buf.start_selection();
    buf.set_cursor(0, 11);
    buf.extend_selection_to_cursor();
    buf.insert_char('X');
    assert_eq!(buf.text(), "hello X");
    assert_eq!(buf.cursor(), Cursor::new(0, 7));
    assert!(buf.selection().is_none());
}

#[test]
fn backspace_deletes_a_backward_selection() {
    let mut buf = EditorBuffer::from_text("abcdef");
    buf.set_cursor(0, 4);
    buf.start_selection();
    buf.set_cursor(0, 1);
    buf.extend_selection_to_cursor();
    buf.delete_back();
    assert_eq!(buf.text(), "aef");
    assert_eq!(buf.cursor(), Cursor::new(0, 1));
}

#[test]
fn normalized_orders_the_ends() {
    let s = Selection { start: Cursor::new(2, 1), end: Cursor::new(0, 4) };
    let n = s.normalized();
    assert_eq!(n.start, Cursor::new(0, 4));
    assert_eq!(n.end, Cursor::new(2, 1));
    let same = Selection { start: Cursor::new(1, 1), end: Cursor::new(1, 3) };
    assert_eq!(same.normalized(), same);
}

#[test]
fn set_cursor_clamps() {
    let mut buf = EditorBuffer::from_text("ab\nc");
    buf.set_cursor(9, 9);
    assert_eq!(buf.cursor(), Cursor::new(1, 1));
    buf.set_cursor(0, 9);
    assert_eq!(buf.cursor(), Cursor::new(0, 2));
}

#[test]
fn crlf_lines_and_line_text() {
    let buf = EditorBuffer::from_text("a\r\nb\rc\n");
    assert_eq!(buf.line_count(), 4);
    assert_eq!(buf.line_text(0), "a");
    assert_eq!(buf.line_text(1), "b");
    assert_eq!(buf.line_text(2), "c");
    assert_eq!(buf.line_text(3), "");
    assert_eq!(buf.line_text(7), "");
    assert_eq!(buf.line_len(0), 1);
}

#[test]
fn moves_wrap_across_lines() {
    let mut buf = EditorBuffer::from_text("ab\ncd");
    buf.set_cursor(0, 2);
    buf.move_right();
    assert_eq!(buf.cursor(), Cursor::new(1, 0));
    buf.move_left();
    assert_eq!(buf.cursor(), Cursor::new(0, 2));
    buf.move_word_forward();
    assert_eq!(buf.cursor(), Cursor::new(1, 0));
    buf.move_word_backward();
    assert_eq!(buf.cursor(), Cursor::new(0, 2));
}

#[test]
fn half_page_moves() {
    let text = "x\n".repeat(30);
    let mut buf = EditorBuffer::from_text(&text);
    buf.move_half_page_down(20);
    assert_eq!(buf.cursor().line, 10);
    buf.move_half_page_down(100);
    assert_eq!(buf.cursor().line, 30);
    buf.move_half_page_up(20);
    assert_eq!(buf.cursor().line, 20);
    buf.move_half_page_up(100);
    assert_eq!(buf.cursor().line, 0);
}

#[test]
fn open_lines_and_paste_at_end() {
    let mut buf = EditorBuffer::from_text("top");
    buf.open_line_below();
    assert_eq!(buf.text(), "top\n");
    assert_eq!(buf.cursor(), Cursor::new(1, 0));
    buf.set_cursor(0, 2);
    buf.open_line_above();
    assert_eq!(buf.text(), "\ntop\n");
    assert_eq!(buf.cursor(), Cursor::new(0, 0));
    let mut end = EditorBuffer::from_text("last");
    end.paste_below("new");
    assert_eq!(end.text(), "last\nnew");
    assert_eq!(end.cursor(), Cursor::new(1, 0));
}

#[test]
fn mark_saved_clears_modified() {
    let mut buf = EditorBuffer::new();
    buf.insert_text("x");
    assert!(buf.is_modified());
    buf.mark_saved();
    assert!(!buf.is_modified());
    buf.insert_text("");
    assert!(!buf.is_modified());
}

#[test]
fn undo_grouping_rule() {
    assert!(joins_top_group(10, 300, true));
    assert!(!joins_top_group(300, 300, true));
    assert!(!joins_top_group(500, 300, true));
    assert!(!joins_top_group(0, 300, false));
    assert!(!joins_top_group(0, 0, true));
}
