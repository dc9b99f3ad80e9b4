use pep::editor::Mode;
use pep::window::Cursor;
use pep::window::Window;

fn row(s: &str) -> Vec<char> {
    s.chars().collect()
}

fn rows(lines: &[&str]) -> Vec<Vec<char>> {
    lines.iter().map(|l| row(l)).collect()
}

fn window(lines: &[&str], x: u16, y: u16, mode: Mode) -> Window {
    Window {
        buffer: rows(lines),
        render_buffer: false,
        cursor: Cursor { x, y },
        mode,
        file_path: String::from("test.txt"),
        undo_stack: Vec::new(),
    }
}

fn as_strings(w: &Window) -> Vec<String> {
    w.buffer.iter().map(|r| r.iter().collect()).collect()
}

#[test]
fn load_splits_lines() {
    let w = Window::new(&row("abc\ndef"), String::from("f.txt"));
    assert_eq!(as_strings(&w), vec!["abc", "def"]);
    assert_eq!(w.cursor.x, 0);
    assert_eq!(w.cursor.y, 0);
    assert_eq!(w.mode, Mode::Normal);
    assert!(w.render_buffer);
    assert_eq!(w.file_path, "f.txt");
    assert!(w.undo_stack.is_empty());
}

#[test]
fn load_empty_content_gives_one_empty_row() {
    let w = Window::new(&row(""), String::from("f.txt"));
    assert_eq!(as_strings(&w), vec![""]);
}

#[test]
fn load_trailing_newline_gives_final_empty_row() {
    let w = Window::new(&row("a\n"), String::from("f.txt"));
    assert_eq!(as_strings(&w), vec!["a", ""]);
}

#[test]
fn load_strips_carriage_return_at_line_break() {
    let w = Window::new(&row("a\r\nb"), String::from("f.txt"));
    assert_eq!(as_strings(&w), vec!["a", "b"]);
}

#[test]
fn save_joins_lines() {
    let w = window(&["abc", "def"], 0, 0, Mode::Normal);
    let content: String = w.save_content().iter().collect();
    assert_eq!(content, "abc\ndef");
}

#[test]
fn save_then_load_round_trips() {
    let original = window(&["abc", "", "def", ""], 0, 0, Mode::Normal);
    let saved = original.save_content();
    let reloaded = Window::new(&saved, String::from("f.txt"));
    assert_eq!(as_strings(&reloaded), as_strings(&original));
}

#[test]
fn move_cursor_clamps_row_and_column() {
    let mut w = window(&["abc", "x"], 0, 0, Mode::Normal);
    w.move_cursor(100, 100);
    assert_eq!((w.cursor.x, w.cursor.y), (0, 1));
    w.move_cursor(100, 0);
    assert_eq!((w.cursor.x, w.cursor.y), (2, 0));
    w.move_cursor(1, 0);
    assert_eq!((w.cursor.x, w.cursor.y), (1, 0));
}

#[test]
fn move_cursor_insert_mode_allows_one_past_end() {
    let mut w = window(&["abc"], 0, 0, Mode::Insert);
    w.move_cursor(100, 0);
    assert_eq!(w.cursor.x, 3);
}

#[test]
fn move_cursor_single_char_row_allows_one_past_end_in_insert() {
    let mut w = window(&["x"], 0, 0, Mode::Insert);
    w.move_cursor(100, 0);
    assert_eq!(w.cursor.x, 1);
}

#[test]
fn move_cursor_single_char_row_allows_only_first_column_in_normal() {
    let mut w = window(&["x"], 0, 0, Mode::Normal);
    w.move_cursor(100, 0);
    assert_eq!(w.cursor.x, 0);
}

#[test]
fn move_cursor_reclamp_keeps_one_past_end_in_insert() {
    let mut w = window(&["a"], 1, 0, Mode::Insert);
    w.move_cursor(1, 0);
    assert_eq!(w.cursor.x, 1);
}

#[test]
fn move_cursor_empty_row_stays_at_zero() {
    let mut w = window(&[""], 0, 0, Mode::Normal);
    w.move_cursor(100, 0);
    assert_eq!(w.cursor.x, 0);
}

#[test]
fn width_is_current_row_length() {
    let w = window(&["abc", "defgh"], 0, 1, Mode::Normal);
    assert_eq!(w.width(), 5);
}

#[test]
fn line_buffer_is_current_row() {
    let w = window(&["abc", "def"], 0, 1, Mode::Normal);
    let r: String = w.line_buffer().iter().collect();
    assert_eq!(r, "def");
}

#[test]
fn insert_splices_text_and_advances_cursor() {
    let mut w = window(&["abc"], 1, 0, Mode::Insert);
    w.insert(&row("xy"));
    assert_eq!(as_strings(&w), vec!["axybc"]);
    assert_eq!(w.cursor.x, 3);
    assert!(w.render_buffer);
}

#[test]
fn find_word_start_on_empty_row_returns_cursor_column() {
    let w = window(&[""], 0, 0, Mode::Normal);
    assert_eq!(w.find_word_start(), 0);
}

#[test]
fn find_word_end_on_empty_row_returns_zero() {
    let w = window(&[""], 0, 0, Mode::Normal);
    assert_eq!(w.find_word_end(), 0);
}

#[test]
fn find_word_end_on_single_char_row_returns_zero() {
    let w = window(&["x"], 0, 0, Mode::Normal);
    assert_eq!(w.find_word_end(), 0);
}

#[test]
fn find_word_bounds_around_cursor() {
    let w = window(&["foo bar"], 5, 0, Mode::Normal);
    assert_eq!(w.find_word_start(), 4);
    assert_eq!(w.find_word_end(), 6);
}

#[test]
fn find_word_start_stops_at_row_start() {
    let w = window(&["bar"], 2, 0, Mode::Normal);
    assert_eq!(w.find_word_start(), 0);
}

#[test]
fn delete_word_on_single_char_row_clears_it() {
    let mut w = window(&["x"], 0, 0, Mode::Normal);
    w.delete_word();
    assert_eq!(as_strings(&w), vec![""]);
    assert_eq!(w.cursor.x, 0);
}

#[test]
fn delete_word_on_empty_row_keeps_it_empty() {
    let mut w = window(&[""], 0, 0, Mode::Normal);
    w.delete_word();
    assert_eq!(as_strings(&w), vec![""]);
    assert_eq!(w.cursor.x, 0);
}

#[test]
fn delete_word_removes_word_around_cursor() {
    let mut w = window(&["foo bar baz"], 5, 0, Mode::Normal);
    w.delete_word();
    assert_eq!(as_strings(&w), vec!["foo  baz"]);
    assert_eq!(w.cursor.x, 4);
}

#[test]
fn delete_under_cursor_removes_one_char() {
    let mut w = window(&["abc"], 1, 0, Mode::Normal);
    w.delete_under_cursor();
    assert_eq!(as_strings(&w), vec!["ac"]);
}

#[test]
fn delete_under_cursor_past_end_is_noop() {
    let mut w = window(&["abc"], 3, 0, Mode::Insert);
    w.delete_under_cursor();
    assert_eq!(as_strings(&w), vec!["abc"]);
    assert!(!w.render_buffer);
}

#[test]
fn delete_line_removes_row_and_reclamps() {
    let mut w = window(&["abc", "d"], 2, 0, Mode::Normal);
    w.delete_line();
    assert_eq!(as_strings(&w), vec!["d"]);
    assert_eq!(w.cursor.y, 0);
    assert_eq!(w.cursor.x, 1);
}

#[test]
fn delete_line_on_last_row_moves_cursor_up() {
    let mut w = window(&["abc", "def"], 0, 1, Mode::Normal);
    w.delete_line();
    assert_eq!(as_strings(&w), vec!["abc"]);
    assert_eq!(w.cursor.y, 0);
}

#[test]
fn delete_line_never_empties_buffer() {
    let mut w = window(&["abc"], 0, 0, Mode::Normal);
    w.delete_line();
    assert_eq!(as_strings(&w), vec!["abc"]);
}

#[test]
fn insert_line_below_adds_row_and_moves_down() {
    let mut w = window(&["ab", "cd"], 1, 0, Mode::Normal);
    w.insert_line_below();
    assert_eq!(as_strings(&w), vec!["ab", "", "cd"]);
    assert_eq!((w.cursor.x, w.cursor.y), (0, 1));
}

#[test]
fn insert_line_above_adds_row_at_cursor() {
    let mut w = window(&["ab", "cd"], 1, 1, Mode::Normal);
    w.insert_line_above();
    assert_eq!(as_strings(&w), vec!["ab", "", "cd"]);
    assert_eq!((w.cursor.x, w.cursor.y), (0, 1));
}

#[test]
fn undo_restores_snapshot_exactly() {
    let mut w = window(&["abc"], 1, 0, Mode::Normal);
    w.push_snapshot();
    w.delete_under_cursor();
    w.move_cursor(0, 0);
    assert_eq!(as_strings(&w), vec!["ac"]);
    w.do_undo();
    assert_eq!(as_strings(&w), vec!["abc"]);
    assert_eq!((w.cursor.x, w.cursor.y), (1, 0));
    assert!(w.undo_stack.is_empty());
}

#[test]
fn undo_with_empty_stack_is_noop() {
    let mut w = window(&["abc"], 1, 0, Mode::Normal);
    w.do_undo();
    assert_eq!(as_strings(&w), vec!["abc"]);
    assert_eq!((w.cursor.x, w.cursor.y), (1, 0));
}
