use pep::config::check_binding;
use pep::config::check_table;
use pep::config::default_true;
use pep::config::lookup;
use pep::config::parse_key_id;
use pep::config::KeyAction;
use pep::config::KeyBind;
use pep::config::KeyId;
use pep::config::KeyMod;
use pep::editor::Action;

fn row(s: &str) -> Vec<char> {
    s.chars().collect()
}

fn plain(c: char) -> KeyId {
    KeyId { modifier: KeyMod::Plain, ch: c }
}

#[test]
fn parse_plain_key() {
    assert_eq!(parse_key_id(&row("g")), Some(plain('g')));
}

#[test]
fn parse_control_key() {
    assert_eq!(parse_key_id(&row("C-s")), Some(KeyId { modifier: KeyMod::Control, ch: 's' }));
}

#[test]
fn parse_shift_key() {
    assert_eq!(parse_key_id(&row("S-g")), Some(KeyId { modifier: KeyMod::Shift, ch: 'g' }));
}

#[test]
fn parse_rejects_other_shapes() {
    assert_eq!(parse_key_id(&row("")), None);
    assert_eq!(parse_key_id(&row("gg")), None);
    assert_eq!(parse_key_id(&row("X-s")), None);
    assert_eq!(parse_key_id(&row("C-ss")), None);
}

#[test]
fn lookup_returns_first_match() {
    let table = vec![
        KeyBind { key: plain('a'), action: KeyAction::Single(Action::MoveUp) },
        KeyBind { key: plain('a'), action: KeyAction::Single(Action::MoveDown) },
    ];
    match lookup(&table, &plain('a')) {
        Some(KeyAction::Single(Action::MoveUp)) => {}
        _ => panic!("expected the first entry"),
    }
    assert!(lookup(&table, &plain('b')).is_none());
}

#[test]
fn zero_repeat_count_is_rejected_at_load() {
    let bad = KeyAction::Repeating(0, Box::new(KeyAction::Single(Action::DeleteLine)));
    assert!(!check_binding(&bad, 32));
    let good = KeyAction::Repeating(1, Box::new(KeyAction::Single(Action::DeleteLine)));
    assert!(check_binding(&good, 32));
}

#[test]
fn nesting_beyond_depth_is_rejected_at_load() {
    let two_deep = KeyAction::Nested(vec![KeyBind {
        key: plain('a'),
        action: KeyAction::Nested(vec![KeyBind {
            key: plain('b'),
            action: KeyAction::Single(Action::MoveUp),
        }]),
    }]);
    assert!(check_binding(&two_deep, 32));
    assert!(!check_binding(&two_deep, 2));
}

#[test]
fn table_check_finds_bad_entry() {
    let table = vec![
        KeyBind { key: plain('a'), action: KeyAction::Single(Action::MoveUp) },
        KeyBind {
            key: plain('d'),
            action: KeyAction::Repeating(0, Box::new(KeyAction::Single(Action::DeleteLine))),
        },
    ];
    assert!(!check_table(&table, 32));
    let ok = vec![KeyBind { key: plain('a'), action: KeyAction::Single(Action::MoveUp) }];
    assert!(check_table(&ok, 32));
}

#[test]
fn default_true_is_true() {
    assert!(default_true());
}
