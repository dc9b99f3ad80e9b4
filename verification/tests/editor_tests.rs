use pep::config::Config;
use pep::config::KeyAction;
use pep::config::KeyBind;
use pep::config::KeyId;
use pep::config::KeyMod;
use pep::config::Keys;
use pep::editor::Action;
use pep::editor::Editor;
use pep::editor::Effect;
use pep::editor::Mode;
use pep::editor::RawKey;
use pep::window::Cursor;
use pep::window::Window;

fn row(s: &str) -> Vec<char> {
    s.chars().collect()
}

fn window(lines: &[&str], x: u16, y: u16, mode: Mode) -> Window {
    Window {
        buffer: lines.iter().map(|l| row(l)).collect(),
        render_buffer: false,
        cursor: Cursor { x, y },
        mode,
        file_path: String::from("test.txt"),
        undo_stack: Vec::new(),
    }
}

fn as_strings(w: &Window) -> Vec<String> {
    w.buffer.iter().map(|r| r.iter().collect()).collect()
}

fn plain(c: char) -> KeyId {
    KeyId { modifier: KeyMod::Plain, ch: c }
}

fn config_with(normal: Vec<KeyBind>) -> Config {
    Config {
        keys: Keys { normal, insert: Vec::new(), command: Vec::new() },
        theme: String::new(),
        plugins: Vec::new(),
        log_file: None,
        mouse_scroll_lines: None,
        show_diagnostics: true,
    }
}

fn press(ed: &mut Editor, c: char) -> Vec<Effect> {
    ed.on_key(RawKey::Char(c, KeyMod::Plain))
}

#[test]
fn nested_binding_resolves_on_second_key() {
    let normal = vec![KeyBind {
        key: plain('g'),
        action: KeyAction::Nested(vec![KeyBind {
            key: plain('g'),
            action: KeyAction::Single(Action::MoveToStartOfLine),
        }]),
    }];
    let mut ed = Editor::new(config_with(normal), window(&["hello"], 3, 0, Mode::Normal));
    let e1 = press(&mut ed, 'g');
    assert!(e1.is_empty());
    assert_eq!(ed.pending.len(), 1);
    let e2 = press(&mut ed, 'g');
    assert!(e2.is_empty());
    assert!(ed.pending.is_empty());
    // MoveToStartOfLine goes to column 0, then enters Insert mode one past.
    assert_eq!(ed.current_buffer.mode, Mode::Insert);
    assert_eq!((ed.current_buffer.cursor.x, ed.current_buffer.cursor.y), (1, 0));
}

#[test]
fn nested_binding_with_unmapped_second_key_is_noop() {
    let normal = vec![KeyBind {
        key: plain('g'),
        action: KeyAction::Nested(vec![KeyBind {
            key: plain('g'),
            action: KeyAction::Single(Action::MoveToStartOfLine),
        }]),
    }];
    let mut ed = Editor::new(config_with(normal), window(&["hello"], 3, 0, Mode::Normal));
    press(&mut ed, 'g');
    let effects = press(&mut ed, 'z');
    assert!(effects.is_empty());
    assert!(ed.pending.is_empty());
    assert_eq!(ed.current_buffer.mode, Mode::Normal);
    assert_eq!((ed.current_buffer.cursor.x, ed.current_buffer.cursor.y), (3, 0));
}

#[test]
fn repeating_binding_applies_count_times() {
    let normal = vec![KeyBind {
        key: plain('d'),
        action: KeyAction::Repeating(3, Box::new(KeyAction::Single(Action::DeleteLine))),
    }];
    let mut ed = Editor::new(
        config_with(normal),
        window(&["a", "b", "c", "d"], 0, 0, Mode::Normal),
    );
    press(&mut ed, 'd');
    assert_eq!(as_strings(&ed.current_buffer), vec!["d"]);
}

#[test]
fn repeating_delete_stops_before_emptying_buffer() {
    let normal = vec![KeyBind {
        key: plain('d'),
        action: KeyAction::Repeating(3, Box::new(KeyAction::Single(Action::DeleteLine))),
    }];
    let mut ed = Editor::new(config_with(normal), window(&["a", "b"], 0, 0, Mode::Normal));
    press(&mut ed, 'd');
    assert_eq!(as_strings(&ed.current_buffer), vec!["b"]);
}

#[test]
fn esc_leaves_insert_mode_and_steps_left() {
    let mut ed = Editor::new(
        config_with(Vec::new()),
        window(&["abc", "def"], 3, 0, Mode::Insert),
    );
    let effects = ed.on_key(RawKey::Esc);
    assert!(effects.is_empty());
    assert_eq!(ed.current_buffer.mode, Mode::Normal);
    assert_eq!((ed.current_buffer.cursor.x, ed.current_buffer.cursor.y), (2, 0));
}

#[test]
fn insert_mode_char_inserts_itself() {
    let mut ed = Editor::new(config_with(Vec::new()), window(&["ac"], 1, 0, Mode::Insert));
    press(&mut ed, 'b');
    assert_eq!(as_strings(&ed.current_buffer), vec!["abc"]);
    assert_eq!(ed.current_buffer.cursor.x, 2);
}

#[test]
fn insert_mode_backspace_deletes_under_cursor() {
    let mut ed = Editor::new(config_with(Vec::new()), window(&["abc"], 1, 0, Mode::Insert));
    ed.on_key(RawKey::Backspace);
    assert_eq!(as_strings(&ed.current_buffer), vec!["ac"]);
}

#[test]
fn unmapped_normal_key_is_noop() {
    let mut ed = Editor::new(config_with(Vec::new()), window(&["abc"], 1, 0, Mode::Normal));
    let effects = press(&mut ed, 'q');
    assert!(effects.is_empty());
    assert_eq!(as_strings(&ed.current_buffer), vec!["abc"]);
    assert_eq!((ed.current_buffer.cursor.x, ed.current_buffer.cursor.y), (1, 0));
}

#[test]
fn control_modifier_forms_distinct_key() {
    let normal = vec![KeyBind {
        key: KeyId { modifier: KeyMod::Control, ch: 's' },
        action: KeyAction::Single(Action::Save),
    }];
    let mut ed = Editor::new(config_with(normal), window(&["abc"], 0, 0, Mode::Normal));
    let plain_effects = ed.on_key(RawKey::Char('s', KeyMod::Plain));
    assert!(plain_effects.is_empty());
    let ctrl_effects = ed.on_key(RawKey::Char('s', KeyMod::Control));
    assert_eq!(ctrl_effects.len(), 1);
    match &ctrl_effects[0] {
        Effect::Save(content, path) => {
            let text: String = content.iter().collect();
            assert_eq!(text, "abc");
            assert_eq!(path, "test.txt");
        }
        Effect::Quit => panic!("expected a save effect"),
    }
}

#[test]
fn quit_stops_an_action_sequence() {
    let normal = vec![KeyBind {
        key: plain('z'),
        action: KeyAction::Multiple(vec![Action::DeleteLine, Action::Quit, Action::DeleteLine]),
    }];
    let mut ed = Editor::new(
        config_with(normal),
        window(&["a", "b", "c"], 0, 0, Mode::Normal),
    );
    let effects = press(&mut ed, 'z');
    assert_eq!(effects.len(), 1);
    assert!(matches!(effects[0], Effect::Quit));
    assert_eq!(as_strings(&ed.current_buffer), vec!["b", "c"]);
}

#[test]
fn undo_key_restores_state_before_mutation() {
    let normal = vec![
        KeyBind { key: plain('x'), action: KeyAction::Single(Action::DeleteUnderCursor) },
        KeyBind { key: plain('u'), action: KeyAction::Single(Action::Undo) },
    ];
    let mut ed = Editor::new(config_with(normal), window(&["abc"], 0, 0, Mode::Normal));
    press(&mut ed, 'x');
    assert_eq!(as_strings(&ed.current_buffer), vec!["bc"]);
    press(&mut ed, 'u');
    assert_eq!(as_strings(&ed.current_buffer), vec!["abc"]);
    assert_eq!((ed.current_buffer.cursor.x, ed.current_buffer.cursor.y), (0, 0));
}

#[test]
fn insert_after_on_single_char_row_lands_one_past_end() {
    let normal = vec![KeyBind { key: plain('a'), action: KeyAction::Single(Action::InsertAfter) }];
    let mut ed = Editor::new(config_with(normal), window(&["x"], 0, 0, Mode::Normal));
    press(&mut ed, 'a');
    assert_eq!(ed.current_buffer.mode, Mode::Insert);
    assert_eq!(ed.current_buffer.cursor.x, 1);
}

#[test]
fn move_to_end_of_line_lands_one_past_end() {
    let normal = vec![
        KeyBind { key: plain('e'), action: KeyAction::Single(Action::MoveToEndOfLine) },
    ];
    let mut ed = Editor::new(config_with(normal), window(&["x"], 0, 0, Mode::Normal));
    press(&mut ed, 'e');
    assert_eq!(ed.current_buffer.mode, Mode::Insert);
    assert_eq!(ed.current_buffer.cursor.x, 1);

    let normal = vec![
        KeyBind { key: plain('e'), action: KeyAction::Single(Action::MoveToEndOfLine) },
    ];
    let mut ed = Editor::new(config_with(normal), window(&["abc"], 0, 0, Mode::Normal));
    press(&mut ed, 'e');
    assert_eq!(ed.current_buffer.cursor.x, 3);
}

#[test]
fn move_right_in_insert_mode_reaches_one_past_end() {
    let mut ed = Editor::new(config_with(Vec::new()), window(&["a"], 0, 0, Mode::Insert));
    ed.on_key(RawKey::Right);
    assert_eq!(ed.current_buffer.cursor.x, 1);
}

#[test]
fn handle_key_event_dispatches_a_binding() {
    let mut w = window(&["a", "b"], 0, 0, Mode::Normal);
    let binding = KeyAction::Single(Action::DeleteLine);
    let effects = pep::editor::handle_key_event(&mut w, Some(&binding));
    assert!(effects.is_empty());
    assert_eq!(as_strings(&w), vec!["b"]);
}

#[test]
fn handle_key_event_without_binding_is_noop() {
    let mut w = window(&["a", "b"], 0, 0, Mode::Normal);
    let effects = pep::editor::handle_key_event(&mut w, None);
    assert!(effects.is_empty());
    assert_eq!(as_strings(&w), vec!["a", "b"]);
}

#[test]
fn arrow_keys_move_in_insert_mode() {
    let mut ed = Editor::new(
        config_with(Vec::new()),
        window(&["abc", "def"], 1, 0, Mode::Insert),
    );
    ed.on_key(RawKey::Down);
    assert_eq!((ed.current_buffer.cursor.x, ed.current_buffer.cursor.y), (1, 1));
    ed.on_key(RawKey::Left);
    assert_eq!((ed.current_buffer.cursor.x, ed.current_buffer.cursor.y), (0, 1));
    ed.on_key(RawKey::Right);
    ed.on_key(RawKey::Up);
    assert_eq!((ed.current_buffer.cursor.x, ed.current_buffer.cursor.y), (1, 0));
}

#[test]
fn move_word_keys_follow_word_bounds() {
    let normal = vec![
        KeyBind { key: plain('b'), action: KeyAction::Single(Action::MoveWordLeft) },
        KeyBind { key: plain('w'), action: KeyAction::Single(Action::MoveWordRight) },
    ];
    let mut ed = Editor::new(
        config_with(normal),
        window(&["foo bar"], 5, 0, Mode::Normal),
    );
    press(&mut ed, 'b');
    assert_eq!(ed.current_buffer.cursor.x, 4);
    press(&mut ed, 'w');
    assert_eq!(ed.current_buffer.cursor.x, 6);
}
