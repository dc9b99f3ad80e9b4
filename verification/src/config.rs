//! Configuration values the editor consumes: the per-mode key-binding
//! tables and the remaining user settings. The tables are immutable once
//! loaded; deserialization from disk happens outside this crate, which
//! receives the tables as plain values.

use vstd::prelude::*;

verus! {

/// Modifier held together with a character key.
#[derive(Debug, Clone, Copy, PartialEq, Eq, Structural)]
pub enum KeyMod {
    Plain,
    Shift,
    Control,
}

/// A key identifier: a literal character, possibly modifier-prefixed.
#[derive(Debug, Clone, Copy, PartialEq, Eq, Structural)]
pub struct KeyId {
    pub modifier: KeyMod,
    pub ch: char,
}

/// What a key is bound to: one action, an ordered list of actions, a
/// nested table requiring one more key to resolve, or a repeat wrapper
/// applying an inner binding a number of times.
pub enum KeyAction {
    Single(crate::editor::Action),
    Multiple(Vec<crate::editor::Action>),
    Nested(Vec<KeyBind>),
    Repeating(u16, Box<KeyAction>),
}

/// One entry of a binding table.
pub struct KeyBind {
    pub key: KeyId,
    pub action: KeyAction,
}

/// The per-mode binding tables.
pub struct Keys {
    pub normal: Vec<KeyBind>,
    pub insert: Vec<KeyBind>,
    pub command: Vec<KeyBind>,
}

/// The configuration the editor consumes, as plain values.
pub struct Config {
    pub keys: Keys,
    pub theme: String,
    pub plugins: Vec<(String, String)>,
    pub log_file: Option<String>,
    pub mouse_scroll_lines: Option<usize>,
    pub show_diagnostics: bool,
}

/// Default for settings that are on unless the configuration says
/// otherwise.
pub fn default_true() -> (r: bool)
    ensures
        r,
{
    true
}

/// How a textual key identifier reads: one character plain, or a
/// `C-`/`S-` prefix for a Control/Shift chord on the character after it.
pub open spec fn parse_key_id_spec(s: Seq<char>) -> Option<KeyId> {
    if s.len() == 1 {
        Some(KeyId { modifier: KeyMod::Plain, ch: s[0] })
    } else if s.len() == 3 && s[0] == 'C' && s[1] == '-' {
        Some(KeyId { modifier: KeyMod::Control, ch: s[2] })
    } else if s.len() == 3 && s[0] == 'S' && s[1] == '-' {
        Some(KeyId { modifier: KeyMod::Shift, ch: s[2] })
    } else {
        None
    }
}

/// Parse a textual key identifier; any other shape is unmatchable and
/// rejected at load time.
pub fn parse_key_id(s: &Vec<char>) -> (r: Option<KeyId>)
    ensures
        r == parse_key_id_spec(s@),
{
    if s.len() == 1 {
        Some(KeyId { modifier: KeyMod::Plain, ch: s[0] })
    } else if s.len() == 3 && s[0] == 'C' && s[1] == '-' {
        Some(KeyId { modifier: KeyMod::Control, ch: s[2] })
    } else if s.len() == 3 && s[0] == 'S' && s[1] == '-' {
        Some(KeyId { modifier: KeyMod::Shift, ch: s[2] })
    } else {
        None
    }
}

/// What looking a key up in a table yields: the action of the first entry
/// bound to it, if any.
pub open spec fn lookup_spec(table: Seq<KeyBind>, k: KeyId) -> Option<KeyAction>
    decreases table.len(),
{
    if table.len() == 0 {
        None
    } else if table[0].key == k {
        Some(table[0].action)
    } else {
        lookup_spec(table.drop_first(), k)
    }
}

/// Look a key up in a binding table.
pub fn lookup<'a>(table: &'a Vec<KeyBind>, k: &KeyId) -> (r: Option<&'a KeyAction>)
    ensures
        match r {
            Some(ka) => lookup_spec(table@, *k) == Some(*ka),
            None => lookup_spec(table@, *k) is None,
        },
{
    proof {
        assert(table@.skip(0) =~= table@);
    }
    let mut i: usize = 0;
    while i < table.len()
        invariant
            0 <= i <= table@.len(),
            lookup_spec(table@, *k) == lookup_spec(table@.skip(i as int), *k),
        decreases table@.len() - i,
    {
        if table[i].key == *k {
            return Some(&table[i].action);
        }
        i = i + 1;
        proof {
            assert(table@.skip(i - 1).drop_first() =~= table@.skip(i as int));
        }
    }
    None
}

/// Whether a binding is acceptable configuration within the given nesting
/// depth: every repeat count is at least one, and nesting does not exceed
/// the depth. Deeper or zero-count bindings are rejected at load time.
pub open spec fn binding_valid(ka: KeyAction, depth: int) -> bool
    decreases depth, 0int,
{
    if depth <= 0 {
        false
    } else {
        match ka {
            KeyAction::Single(_) => true,
            KeyAction::Multiple(_) => true,
            KeyAction::Nested(t) => table_valid(t@, depth - 1),
            KeyAction::Repeating(n, inner) => n >= 1 && binding_valid(*inner, depth - 1),
        }
    }
}

/// Whether every binding of a table is acceptable within the given depth.
pub open spec fn table_valid(table: Seq<KeyBind>, depth: int) -> bool
    decreases depth, table.len(),
{
    if table.len() == 0 {
        true
    } else {
        binding_valid(table[0].action, depth) && table_valid(table.drop_first(), depth)
    }
}

/// Check one binding at load time.
pub fn check_binding(ka: &KeyAction, depth: u32) -> (r: bool)
    ensures
        r == binding_valid(*ka, depth as int),
    decreases depth, 0int,
{
    if depth == 0 {
        return false;
    }
    match ka {
        KeyAction::Single(_) => true,
        KeyAction::Multiple(_) => true,
        KeyAction::Nested(t) => check_table(t, depth - 1),
        KeyAction::Repeating(n, inner) => *n >= 1 && check_binding(inner, depth - 1),
    }
}

/// Check a whole binding table at load time.
pub fn check_table(table: &Vec<KeyBind>, depth: u32) -> (r: bool)
    ensures
        r == table_valid(table@, depth as int),
    decreases depth, table@.len(),
{
    proof {
        assert(table@.skip(0) =~= table@);
    }
    let mut i: usize = 0;
    while i < table.len()
        invariant
            0 <= i <= table@.len(),
            table_valid(table@, depth as int) == table_valid(table@.skip(i as int), depth as int),
        decreases table@.len() - i,
    {
        if !check_binding(&table[i].action, depth) {
            return false;
        }
        i = i + 1;
        proof {
            assert(table@.skip(i - 1).drop_first() =~= table@.skip(i as int));
        }
    }
    true
}

} // verus!
