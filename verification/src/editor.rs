//! The editing session: mode state machine, semantic actions, and the
//! key-binding resolver/dispatcher that applies them to the text buffer.
//!
//! Everything here is synchronous and free of input/output: the caller
//! feeds one decoded key at a time into [`Editor::on_key`] and carries out
//! the returned effects (quit, write a file). A binding that needs one
//! more key to resolve is remembered as a pending prefix and finished by
//! the next call.

use crate::config::Config;
use crate::config::KeyBind;
use crate::config::KeyId;
use crate::config::KeyMod;
use crate::config::KeyAction;
use crate::config::lookup;
use crate::config::lookup_spec;
use crate::window::Window;
use crate::window::WinView;
use crate::window::delete_line_view;
use crate::window::delete_under_cursor_view;
use crate::window::delete_word_view;
use crate::window::insert_line_above_view;
use crate::window::insert_line_below_view;
use crate::window::insert_view;
use crate::window::join_lines;
use crate::window::move_cursor_view;
use crate::window::push_snapshot_view;
use crate::window::undo_view;
use crate::window::word_end_at;
use crate::window::word_start_at;
use vstd::prelude::*;

verus! {

/// Input interpretation context: Normal = command keys, Insert = literal
/// text entry.
#[derive(Debug, Clone, Copy, PartialEq, Eq, Structural)]
pub enum Mode {
    Normal,
    Insert,
}

/// A fully resolved semantic action, as named in the configuration.
#[derive(Debug, Clone, Copy, PartialEq, Eq, Structural)]
pub enum Action {
    Quit,
    MoveUp,
    MoveDown,
    MoveLeft,
    MoveRight,
    InsertMode,
    DeleteUnderCursor,
    NormalMode,
    Save,
    InsertAfter,
    InsertLineAfter,
    InsertLineAbove,
    DeleteLine,
    DeleteWord,
    MoveWordRight,
    MoveWordLeft,
    MoveToStartOfLine,
    MoveToEndOfLine,
    Undo,
}

/// A decoded input key, as the event loop hands it in: a character with
/// its modifier, or one of the special keys the editor reacts to. Any
/// other event is `Other` and ignored.
#[derive(Debug, Clone, Copy, PartialEq, Eq, Structural)]
pub enum RawKey {
    Char(char, KeyMod),
    Esc,
    Up,
    Down,
    Left,
    Right,
    Backspace,
    Other,
}

/// An outside effect the caller must carry out: end the session, or write
/// the given content to the given path and report failure without
/// aborting.
pub enum Effect {
    Quit,
    Save(Vec<char>, String),
}

/// Model of an effect.
#[verifier::ext_equal]
pub enum EffectV {
    Quit,
    Save(Seq<char>, Seq<char>),
}

impl View for Effect {
    type V = EffectV;

    open spec fn view(&self) -> EffectV {
        match self {
            Effect::Quit => EffectV::Quit,
            Effect::Save(content, path) => EffectV::Save(content@, path@),
        }
    }
}

impl DeepView for Effect {
    type V = EffectV;

    open spec fn deep_view(&self) -> EffectV {
        self.view()
    }
}

/// What entering Insert mode does: switch the mode, and for the
/// insert-after flavour step one column right (clamped under the Insert
/// rule).
pub open spec fn enter_insert_view(v: WinView, after: bool) -> WinView {
    let v2 = WinView { mode: Mode::Insert, ..v };
    if after {
        move_cursor_view(v2, v.x + 1, v.y)
    } else {
        v2
    }
}

/// What leaving Insert mode does: step one column left when possible
/// (re-clamping first, under the mode still in force), then switch to
/// Normal mode.
pub open spec fn enter_normal_view(v: WinView) -> WinView {
    let moved = if v.mode == Mode::Insert && v.x > 0 {
        move_cursor_view(v, v.x - 1, v.y)
    } else {
        move_cursor_view(v, v.x, v.y)
    };
    WinView { mode: Mode::Normal, ..moved }
}

/// The effect a single action requests from the caller: Quit asks to end
/// the session, Save hands over the joined rows and the backing path.
pub open spec fn action_effect_view(v: WinView, a: Action) -> Option<EffectV> {
    match a {
        Action::Quit => Some(EffectV::Quit),
        Action::Save => Some(EffectV::Save(join_lines(v.lines), v.path)),
        _ => None,
    }
}

/// What a single action does to the buffer.
pub open spec fn single_action_view(v: WinView, a: Action) -> WinView {
    match a {
        Action::Quit => v,
        Action::MoveUp => if v.y > 0 {
            move_cursor_view(v, v.x, v.y - 1)
        } else {
            move_cursor_view(v, v.x, v.y)
        },
        Action::MoveDown => move_cursor_view(v, v.x, v.y + 1),
        Action::MoveLeft => if v.x > 0 {
            move_cursor_view(v, v.x - 1, v.y)
        } else {
            move_cursor_view(v, v.x, v.y)
        },
        Action::MoveRight => move_cursor_view(v, v.x + 1, v.y),
        Action::InsertMode => enter_insert_view(v, false),
        Action::InsertAfter => enter_insert_view(v, true),
        Action::NormalMode => enter_normal_view(v),
        Action::InsertLineAfter => insert_line_below_view(v),
        Action::InsertLineAbove => insert_line_above_view(v),
        Action::DeleteUnderCursor => delete_under_cursor_view(v),
        Action::Save => v,
        Action::DeleteLine => delete_line_view(v),
        Action::MoveToEndOfLine => enter_insert_view(
            move_cursor_view(v, v.lines[v.y].len() as int, v.y),
            true,
        ),
        Action::MoveToStartOfLine => enter_insert_view(move_cursor_view(v, 0, v.y), true),
        Action::DeleteWord => delete_word_view(v),
        Action::MoveWordLeft => move_cursor_view(v, word_start_at(v.lines[v.y], v.x), v.y),
        Action::MoveWordRight => move_cursor_view(v, word_end_at(v.lines[v.y], v.x), v.y),
        Action::Undo => undo_view(v),
    }
}

/// Switch to Insert mode; the insert-after flavour first steps one column
/// right, clamped under the Insert rule now in force.
pub fn enter_insert_mode(win: &mut Window, after: bool)
    requires
        old(win).wf(),
    ensures
        final(win).wf(),
        final(win)@ == enter_insert_view(old(win)@, after),
{
    win.mode = Mode::Insert;
    if after {
        let x = win.cursor.x;
        let y = win.cursor.y;
        let tx: u16 = if x == 65535 {
            x
        } else {
            x + 1
        };
        win.move_cursor(tx, y);
        proof {
            assert(win@ =~~= enter_insert_view(old(win)@, after));
        }
    } else {
        proof {
            assert(win@ =~~= enter_insert_view(old(win)@, after));
        }
    }
}

/// Leave Insert mode for Normal mode, stepping one column left when the
/// cursor is not already at the first column.
pub fn enter_normal_mode(win: &mut Window)
    requires
        old(win).wf(),
    ensures
        final(win).wf(),
        final(win)@ == enter_normal_view(old(win)@),
{
    let insert = match win.mode { Mode::Insert => true, Mode::Normal => false };
    let x = win.cursor.x;
    let y = win.cursor.y;
    if insert && x > 0 {
        win.move_cursor(x - 1, y);
    } else {
        win.move_cursor(x, y);
    }
    win.mode = Mode::Normal;
    proof {
        assert(win@ =~~= enter_normal_view(old(win)@));
    }
}

/// Apply one action to the buffer and hand back the effect it requests
/// from the caller, if any. Buffer-mutating actions never fail: they
/// clamp or do nothing instead.
pub fn handle_single_action(win: &mut Window, a: Action) -> (e: Option<Effect>)
    requires
        old(win).wf(),
    ensures
        final(win).wf(),
        final(win)@ == single_action_view(old(win)@, a),
        match e {
            Some(ef) => action_effect_view(old(win)@, a) == Some(ef@),
            None => action_effect_view(old(win)@, a) is None,
        },
{
    match a {
        Action::Quit => Some(Effect::Quit),
        Action::MoveUp => {
            let x = win.cursor.x;
            let y = win.cursor.y;
            if y > 0 {
                win.move_cursor(x, y - 1);
            } else {
                win.move_cursor(x, y);
            }
            None
        },
        Action::MoveDown => {
            let x = win.cursor.x;
            let y = win.cursor.y;
            let ty: u16 = if y == 65535 {
                y
            } else {
                y + 1
            };
            win.move_cursor(x, ty);
            proof {
                assert(win@ =~~= single_action_view(old(win)@, a));
            }
            None
        },
        Action::MoveLeft => {
            let x = win.cursor.x;
            let y = win.cursor.y;
            if x > 0 {
                win.move_cursor(x - 1, y);
            } else {
                win.move_cursor(x, y);
            }
            None
        },
        Action::MoveRight => {
            let x = win.cursor.x;
            let y = win.cursor.y;
            let tx: u16 = if x == 65535 {
                x
            } else {
                x + 1
            };
            win.move_cursor(tx, y);
            proof {
                assert(win@ =~~= single_action_view(old(win)@, a));
            }
            None
        },
        Action::InsertMode => {
            enter_insert_mode(win, false);
            None
        },
        Action::InsertAfter => {
            enter_insert_mode(win, true);
            None
        },
        Action::NormalMode => {
            enter_normal_mode(win);
            None
        },
        Action::InsertLineAfter => {
            win.insert_line_below();
            None
        },
        Action::InsertLineAbove => {
            win.insert_line_above();
            None
        },
        Action::DeleteUnderCursor => {
            win.delete_under_cursor();
            None
        },
        Action::Save => {
            let content = win.save_content();
            let path = win.file_path.clone();
            Some(Effect::Save(content, path))
        },
        Action::DeleteLine => {
            win.delete_line();
            None
        },
        Action::MoveToEndOfLine => {
            let w = win.width();
            let y = win.cursor.y;
            win.move_cursor(w, y);
            enter_insert_mode(win, true);
            None
        },
        Action::MoveToStartOfLine => {
            let y = win.cursor.y;
            win.move_cursor(0, y);
            enter_insert_mode(win, true);
            None
        },
        Action::DeleteWord => {
            win.delete_word();
            None
        },
        Action::MoveWordLeft => {
            let s = win.find_word_start();
            let y = win.cursor.y;
            win.move_cursor(s as u16, y);
            None
        },
        Action::MoveWordRight => {
            let e = win.find_word_end();
            let y = win.cursor.y;
            win.move_cursor(e as u16, y);
            None
        },
        Action::Undo => {
            win.do_undo();
            None
        },
    }
}

/// The effect of an action, as a sequence: one element or none.
pub open spec fn opt_effect_seq(e: Option<EffectV>) -> Seq<EffectV> {
    match e {
        Some(x) => seq![x],
        None => Seq::empty(),
    }
}

/// What applying an ordered action list does: each action in turn, with
/// its effects in order; Quit stops the list, nothing after it runs.
pub open spec fn actions_view(v: WinView, list: Seq<Action>) -> (WinView, Seq<EffectV>)
    decreases list.len(),
{
    if list.len() == 0 {
        (v, Seq::empty())
    } else {
        let v1 = single_action_view(v, list[0]);
        if list[0] == Action::Quit {
            (v1, seq![EffectV::Quit])
        } else {
            let r = actions_view(v1, list.drop_first());
            (r.0, opt_effect_seq(action_effect_view(v, list[0])) + r.1)
        }
    }
}

/// What applying one resolved binding does. A nested table does nothing
/// here: it resolves only at the top level, by consuming the next key.
pub open spec fn binding_view(v: WinView, ka: KeyAction) -> (WinView, Seq<EffectV>)
    decreases ka, 0int,
{
    match ka {
        KeyAction::Single(a) => actions_view(v, seq![a]),
        KeyAction::Multiple(l) => actions_view(v, l@),
        KeyAction::Nested(_) => (v, Seq::empty()),
        KeyAction::Repeating(n, inner) => repeat_view(v, *inner, n as int),
    }
}

/// What applying a binding `n` times does; a Quit from the inner binding
/// stops the repetition.
pub open spec fn repeat_view(v: WinView, inner: KeyAction, n: int) -> (WinView, Seq<EffectV>)
    decreases inner, n,
{
    if n <= 0 {
        (v, Seq::empty())
    } else {
        let r1 = binding_view(v, inner);
        if r1.1.contains(EffectV::Quit) {
            r1
        } else {
            let r2 = repeat_view(r1.0, inner, n - 1);
            (r2.0, r1.1 + r2.1)
        }
    }
}

/// Whether an action changes buffer content (as opposed to moving the
/// cursor, switching modes, saving or undoing). A snapshot is pushed
/// before an input event exactly when its binding mutates.
pub open spec fn action_mutates(a: Action) -> bool {
    ||| a == Action::DeleteUnderCursor
    ||| a == Action::DeleteLine
    ||| a == Action::DeleteWord
    ||| a == Action::InsertLineAfter
    ||| a == Action::InsertLineAbove
}

/// Whether any action of the list changes buffer content.
pub open spec fn actions_mutate(l: Seq<Action>) -> bool
    decreases l.len(),
{
    if l.len() == 0 {
        false
    } else {
        action_mutates(l[0]) || actions_mutate(l.drop_first())
    }
}

/// Whether applying the binding can change buffer content.
pub open spec fn binding_mutates(ka: KeyAction) -> bool
    decreases ka,
{
    match ka {
        KeyAction::Single(a) => action_mutates(a),
        KeyAction::Multiple(l) => actions_mutate(l@),
        KeyAction::Nested(_) => false,
        KeyAction::Repeating(n, inner) => n > 0 && binding_mutates(*inner),
    }
}

/// Whether an action changes buffer content.
pub fn action_mutates_exec(a: Action) -> (r: bool)
    ensures
        r == action_mutates(a),
{
    match a {
        Action::DeleteUnderCursor => true,
        Action::DeleteLine => true,
        Action::DeleteWord => true,
        Action::InsertLineAfter => true,
        Action::InsertLineAbove => true,
        _ => false,
    }
}

/// Whether applying the binding can change buffer content.
#[verifier::loop_isolation(false)]
pub fn binding_mutates_exec(ka: &KeyAction) -> (r: bool)
    ensures
        r == binding_mutates(*ka),
    decreases *ka,
{
    match ka {
        KeyAction::Single(a) => action_mutates_exec(*a),
        KeyAction::Multiple(l) => {
            proof {
                assert(l@.skip(0) =~= l@);
            }
            let mut i: usize = 0;
            while i < l.len()
                invariant
                    0 <= i <= l@.len(),
                    actions_mutate(l@) == actions_mutate(l@.skip(i as int)),
                decreases l@.len() - i,
            {
                if action_mutates_exec(l[i]) {
                    return true;
                }
                i = i + 1;
                proof {
                    assert(l@.skip(i - 1).drop_first() =~= l@.skip(i as int));
                }
            }
            false
        },
        KeyAction::Nested(_) => false,
        KeyAction::Repeating(n, inner) => *n > 0 && binding_mutates_exec(inner),
    }
}

/// Whether the effects so far ask to quit.
fn effects_contain_quit(effs: &Vec<Effect>) -> (r: bool)
    ensures
        r == effs.deep_view().contains(EffectV::Quit),
{
    let mut i: usize = 0;
    while i < effs.len()
        invariant
            0 <= i <= effs@.len(),
            forall|j: int| 0 <= j < i ==> effs.deep_view()[j] != EffectV::Quit,
        decreases effs@.len() - i,
    {
        match &effs[i] {
            Effect::Quit => {
                proof {
                    assert(effs.deep_view()[i as int] == EffectV::Quit);
                }
                return true;
            },
            Effect::Save(_, _) => {},
        }
        i = i + 1;
    }
    false
}

/// Apply an ordered list of actions, stopping at a Quit; the effects come
/// back in order.
#[verifier::loop_isolation(false)]
pub fn apply_actions(win: &mut Window, list: &Vec<Action>) -> (effs: Vec<Effect>)
    requires
        old(win).wf(),
    ensures
        final(win).wf(),
        final(win)@ == actions_view(old(win)@, list@).0,
        effs.deep_view() == actions_view(old(win)@, list@).1,
{
    let ghost v0 = old(win)@;
    let mut effs: Vec<Effect> = Vec::new();
    let mut i: usize = 0;
    proof {
        assert(list@.skip(0) =~= list@);
        assert(effs.deep_view() =~= Seq::<EffectV>::empty());
        assert(actions_view(v0, list@).1 =~= effs.deep_view() + actions_view(
            win@,
            list@.skip(0),
        ).1);
    }
    while i < list.len()
        invariant
            win.wf(),
            0 <= i <= list@.len(),
            actions_view(v0, list@).0 == actions_view(win@, list@.skip(i as int)).0,
            actions_view(v0, list@).1 == effs.deep_view() + actions_view(
                win@,
                list@.skip(i as int),
            ).1,
        decreases list@.len() - i,
    {
        let ghost w_before = win@;
        let ghost effs_before = effs.deep_view();
        let a = list[i];
        proof {
            assert(list@.skip(i as int)[0] == a);
            assert(list@.skip(i as int).drop_first() =~= list@.skip(i as int + 1));
        }
        let e = handle_single_action(win, a);
        let is_quit = match a { Action::Quit => true, _ => false };
        match e {
            Some(ef) => {
                effs.push(ef);
                proof {
                    assert(effs.deep_view() =~= effs_before + opt_effect_seq(
                        action_effect_view(w_before, a),
                    ));
                }
            },
            None => {
                proof {
                    assert(effs.deep_view() =~= effs_before + opt_effect_seq(
                        action_effect_view(w_before, a),
                    ));
                }
            },
        }
        if is_quit {
            proof {
                assert(actions_view(w_before, list@.skip(i as int)).0 == single_action_view(
                    w_before,
                    a,
                ));
                assert(actions_view(w_before, list@.skip(i as int)).1 == seq![EffectV::Quit]);
                assert(opt_effect_seq(action_effect_view(w_before, a)) =~= seq![EffectV::Quit]);
                assert(actions_view(v0, list@).1 =~= effs.deep_view());
            }
            return effs;
        }
        i = i + 1;
        proof {
            assert(actions_view(w_before, list@.skip(i - 1)).0 == actions_view(
                win@,
                list@.skip(i as int),
            ).0);
            assert(actions_view(w_before, list@.skip(i - 1)).1 == opt_effect_seq(
                action_effect_view(w_before, a),
            ) + actions_view(win@, list@.skip(i as int)).1);
            assert(actions_view(v0, list@).1 =~= effs.deep_view() + actions_view(
                win@,
                list@.skip(i as int),
            ).1);
        }
    }
    proof {
        assert(list@.skip(list@.len() as int) =~= Seq::<Action>::empty());
        assert(actions_view(v0, list@).1 =~= effs.deep_view());
    }
    effs
}

/// Apply one resolved binding: a single action, an action list in order,
/// or a repeat of an inner binding; a Quit stops everything after it. A
/// nested table is inert here (it resolves at the top level by consuming
/// the next key).
#[verifier::loop_isolation(false)]
pub fn apply_binding(win: &mut Window, ka: &KeyAction) -> (effs: Vec<Effect>)
    requires
        old(win).wf(),
    ensures
        final(win).wf(),
        final(win)@ == binding_view(old(win)@, *ka).0,
        effs.deep_view() == binding_view(old(win)@, *ka).1,
    decreases *ka, 0int,
{
    match ka {
        KeyAction::Single(a) => {
            let e = handle_single_action(win, *a);
            let mut effs: Vec<Effect> = Vec::new();
            match e {
                Some(ef) => { effs.push(ef); },
                None => {},
            }
            proof {
                let s1 = seq![*a];
                let v1 = single_action_view(old(win)@, *a);
                assert(s1.drop_first() =~= Seq::<Action>::empty());
                assert(actions_view(v1, Seq::<Action>::empty()) == (
                    v1,
                    Seq::<EffectV>::empty(),
                ));
                if *a == Action::Quit {
                    assert(actions_view(old(win)@, s1).0 == v1);
                    assert(actions_view(old(win)@, s1).1 == seq![EffectV::Quit]);
                    assert(effs.deep_view() =~= seq![EffectV::Quit]);
                } else {
                    assert(actions_view(old(win)@, s1).0 == v1);
                    assert(actions_view(old(win)@, s1).1 == opt_effect_seq(
                        action_effect_view(old(win)@, *a),
                    ) + Seq::<EffectV>::empty());
                    assert(effs.deep_view() =~= opt_effect_seq(
                        action_effect_view(old(win)@, *a),
                    ) + Seq::<EffectV>::empty());
                }
            }
            effs
        },
        KeyAction::Multiple(l) => apply_actions(win, l),
        KeyAction::Nested(_) => {
            let effs: Vec<Effect> = Vec::new();
            proof {
                assert(effs.deep_view() =~= Seq::<EffectV>::empty());
            }
            effs
        },
        KeyAction::Repeating(n, inner) => {
            let ghost v0 = old(win)@;
            let mut effs: Vec<Effect> = Vec::new();
            let mut i: u16 = 0;
            proof {
                assert(effs.deep_view() =~= Seq::<EffectV>::empty());
                assert(repeat_view(v0, **inner, *n as int).1 =~= effs.deep_view() + repeat_view(
                    win@,
                    **inner,
                    *n as int,
                ).1);
            }
            while i < *n
                invariant
                    win.wf(),
                    0 <= i <= *n,
                    repeat_view(v0, **inner, *n as int).0 == repeat_view(
                        win@,
                        **inner,
                        *n as int - i,
                    ).0,
                    repeat_view(v0, **inner, *n as int).1 == effs.deep_view() + repeat_view(
                        win@,
                        **inner,
                        *n as int - i,
                    ).1,
                decreases *n - i,
            {
                let ghost w_before = win@;
                let ghost effs_before = effs.deep_view();
                let mut es1 = apply_binding(win, &**inner);
                let ghost es1v = es1.deep_view();
                let q = effects_contain_quit(&es1);
                effs.append(&mut es1);
                proof {
                    assert(effs.deep_view() =~= effs_before + es1v);
                    assert(binding_view(w_before, **inner) == (win@, es1v));
                }
                if q {
                    proof {
                        assert(repeat_view(w_before, **inner, *n as int - i) == binding_view(
                            w_before,
                            **inner,
                        ));
                        assert(repeat_view(v0, **inner, *n as int).1 =~= effs.deep_view());
                    }
                    return effs;
                }
                i = i + 1;
                proof {
                    assert(repeat_view(w_before, **inner, *n as int - (i - 1)).0 == repeat_view(
                        win@,
                        **inner,
                        *n as int - i,
                    ).0);
                    assert(repeat_view(w_before, **inner, *n as int - (i - 1)).1 == es1v
                        + repeat_view(win@, **inner, *n as int - i).1);
                    assert(repeat_view(v0, **inner, *n as int).1 =~= effs.deep_view()
                        + repeat_view(win@, **inner, *n as int - i).1);
                }
            }
            proof {
                assert(repeat_view(v0, **inner, *n as int).1 =~= effs.deep_view());
            }
            effs
        },
    }
}

/// Dispatch a resolved binding, if any: an unmapped key is silently
/// ignored.
pub fn handle_key_event(win: &mut Window, action: Option<&KeyAction>) -> (effs: Vec<Effect>)
    requires
        old(win).wf(),
    ensures
        final(win).wf(),
        match action {
            Some(ka) => final(win)@ == binding_view(old(win)@, *ka).0 && effs.deep_view()
                == binding_view(old(win)@, *ka).1,
            None => final(win)@ == old(win)@ && effs@.len() == 0,
        },
{
    match action {
        Some(ka) => apply_binding(win, ka),
        None => Vec::new(),
    }
}

/// What resolving a key path through a table yields: the first key looked
/// up in the table, each further key in the nested table the previous
/// step reached; `None` anywhere resolves to nothing.
pub open spec fn resolve_path(table: Seq<KeyBind>, path: Seq<KeyId>) -> Option<KeyAction>
    decreases path.len(),
{
    if path.len() == 0 {
        None
    } else {
        match lookup_spec(table, path[0]) {
            None => None,
            Some(ka) => if path.len() == 1 {
                Some(ka)
            } else {
                match ka {
                    KeyAction::Nested(t) => resolve_path(t@, path.drop_first()),
                    _ => None,
                }
            },
        }
    }
}

/// A pending key prefix always names a nested table still waiting for
/// one more key.
pub open spec fn pending_ok(table: Seq<KeyBind>, path: Seq<KeyId>) -> bool {
    path.len() == 0 || (resolve_path(table, path) matches Some(KeyAction::Nested(_)))
}

/// Resolve the pending prefix extended by one more key.
#[verifier::loop_isolation(false)]
pub fn resolve_with<'a>(table: &'a Vec<KeyBind>, path: &Vec<KeyId>, last: KeyId) -> (r: Option<
    &'a KeyAction,
>)
    ensures
        match r {
            Some(ka) => resolve_path(table@, path@.push(last)) == Some(*ka),
            None => resolve_path(table@, path@.push(last)) is None,
        },
{
    let ghost full = path@.push(last);
    let mut tbl: &'a Vec<KeyBind> = table;
    let mut i: usize = 0;
    proof {
        assert(full.skip(0) =~= full);
    }
    while i < path.len()
        invariant
            0 <= i <= path@.len(),
            full == path@.push(last),
            resolve_path(table@, full) == resolve_path(tbl@, full.skip(i as int)),
        decreases path@.len() - i,
    {
        let k = path[i];
        proof {
            assert(full.skip(i as int)[0] == k);
            assert(full.skip(i as int).drop_first() =~= full.skip(i as int + 1));
        }
        let r = lookup(tbl, &k);
        match r {
            Some(ka) => match ka {
                KeyAction::Nested(t) => {
                    tbl = t;
                    i = i + 1;
                },
                _ => {
                    return None;
                },
            },
            None => {
                return None;
            },
        }
    }
    proof {
        assert(full.skip(path@.len() as int) =~= seq![last]);
    }
    lookup(tbl, &last)
}

/// The editing session: the configuration, the buffer being edited, any
/// background buffers, and the pending prefix of a nested binding.
pub struct Editor {
    pub config: Config,
    pub current_buffer: Window,
    pub alt_buffers: Vec<Window>,
    pub pending: Vec<KeyId>,
}

/// How a raw key names a Normal-mode table entry: only a character key
/// does, together with its modifier.
pub open spec fn normal_key_id(k: RawKey) -> Option<KeyId> {
    match k {
        RawKey::Char(c, m) => Some(KeyId { modifier: m, ch: c }),
        _ => None,
    }
}

/// One Normal-mode step: the new pending prefix, the new buffer, and the
/// effects. An unmapped key or a non-character key drops the pending
/// prefix and does nothing else; a nested table extends it; anything else
/// resolves, pushes a snapshot first if the binding mutates, and applies.
pub open spec fn normal_step(table: Seq<KeyBind>, pend: Seq<KeyId>, v: WinView, k: RawKey) -> (
    Seq<KeyId>,
    WinView,
    Seq<EffectV>,
) {
    match normal_key_id(k) {
        None => (Seq::empty(), v, Seq::empty()),
        Some(kid) => match resolve_path(table, pend.push(kid)) {
            None => (Seq::empty(), v, Seq::empty()),
            Some(ka) => if ka matches KeyAction::Nested(_) {
                (pend.push(kid), v, Seq::empty())
            } else {
                let v1 = if binding_mutates(ka) {
                    push_snapshot_view(v)
                } else {
                    v
                };
                let r = binding_view(v1, ka);
                (Seq::empty(), r.0, r.1)
            },
        },
    }
}

/// Law (resolution miss): a Normal-mode key that resolves to nothing —
/// a non-character key, or a character key whose path is unmapped — is
/// silently absorbed: the buffer is unchanged, no effect is produced, and
/// any pending prefix is dropped.
pub proof fn lemma_resolution_miss_is_noop(
    table: Seq<KeyBind>,
    pend: Seq<KeyId>,
    v: WinView,
    k: RawKey,
)
    requires
        match normal_key_id(k) {
            Some(kid) => resolve_path(table, pend.push(kid)) is None,
            None => true,
        },
    ensures
        normal_step(table, pend, v, k).0 == Seq::<KeyId>::empty(),
        normal_step(table, pend, v, k).1 == v,
        normal_step(table, pend, v, k).2 == Seq::<EffectV>::empty(),
{
}

/// Law (chord miss): when a key is bound to a nested table in which a
/// second key is not bound, pressing the first key and then the second —
/// whatever that second key is — resolves to no-op: the buffer is
/// unchanged throughout, no effect is produced, and the pending prefix is
/// dropped again.
pub proof fn lemma_chord_miss_is_noop(
    table: Seq<KeyBind>,
    t: Vec<KeyBind>,
    k1: KeyId,
    k2: KeyId,
    v: WinView,
)
    requires
        lookup_spec(table, k1) == Some(KeyAction::Nested(t)),
        lookup_spec(t@, k2) is None,
    ensures
        ({
            let st1 = normal_step(table, Seq::<KeyId>::empty(), v, RawKey::Char(k1.ch, k1.modifier));
            let st2 = normal_step(table, st1.0, st1.1, RawKey::Char(k2.ch, k2.modifier));
            &&& st1.0 == seq![k1]
            &&& st1.1 == v
            &&& st1.2 == Seq::<EffectV>::empty()
            &&& st2.0 == Seq::<KeyId>::empty()
            &&& st2.1 == v
            &&& st2.2 == Seq::<EffectV>::empty()
        }),
{
    assert(KeyId { modifier: k1.modifier, ch: k1.ch } == k1);
    assert(KeyId { modifier: k2.modifier, ch: k2.ch } == k2);
    let p1 = Seq::<KeyId>::empty().push(k1);
    assert(p1 =~= seq![k1]);
    assert(resolve_path(table, p1) == Some(KeyAction::Nested(t)));
    let p2 = seq![k1].push(k2);
    assert(p2.len() == 2 && p2[0] == k1 && p2[1] == k2);
    assert(p2.drop_first() =~= seq![k2]);
    assert(resolve_path(t@, p2.drop_first()) is None);
    assert(resolve_path(table, p2) is None);
}

/// One Insert-mode step: a character key inserts itself (after a
/// snapshot), Esc returns to Normal mode, the arrow keys move, Backspace
/// deletes under the cursor (after a snapshot); anything else is ignored.
pub open spec fn insert_step(v: WinView, k: RawKey) -> WinView {
    match k {
        RawKey::Char(c, _) => insert_view(push_snapshot_view(v), seq![c]),
        RawKey::Esc => enter_normal_view(v),
        RawKey::Up => single_action_view(v, Action::MoveUp),
        RawKey::Down => single_action_view(v, Action::MoveDown),
        RawKey::Left => single_action_view(v, Action::MoveLeft),
        RawKey::Right => single_action_view(v, Action::MoveRight),
        RawKey::Backspace => delete_under_cursor_view(push_snapshot_view(v)),
        RawKey::Other => v,
    }
}

/// Apply one Insert-mode key to the buffer.
pub fn handle_insert_event(win: &mut Window, k: RawKey)
    requires
        old(win).wf(),
    ensures
        final(win).wf(),
        final(win)@ == insert_step(old(win)@, k),
{
    match k {
        RawKey::Char(c, _) => {
            win.push_snapshot();
            let mut t: Vec<char> = Vec::new();
            t.push(c);
            proof {
                assert(t@ =~= seq![c]);
            }
            win.insert(&t);
        },
        RawKey::Esc => {
            enter_normal_mode(win);
        },
        RawKey::Up => {
            let _ = handle_single_action(win, Action::MoveUp);
        },
        RawKey::Down => {
            let _ = handle_single_action(win, Action::MoveDown);
        },
        RawKey::Left => {
            let _ = handle_single_action(win, Action::MoveLeft);
        },
        RawKey::Right => {
            let _ = handle_single_action(win, Action::MoveRight);
        },
        RawKey::Backspace => {
            win.push_snapshot();
            win.delete_under_cursor();
        },
        RawKey::Other => {},
    }
}

impl Editor {
    /// The session invariant: a well-formed buffer, and a pending prefix
    /// that really does name a nested table of the Normal-mode bindings.
    pub open spec fn wf(self) -> bool {
        &&& self.current_buffer.wf()
        &&& pending_ok(self.config.keys.normal@, self.pending@)
    }

    /// A fresh session over a loaded configuration and an opened buffer.
    pub fn new(config: Config, window: Window) -> (ed: Editor)
        requires
            window.wf(),
        ensures
            ed.wf(),
            ed.config == config,
            ed.current_buffer == window,
            ed.alt_buffers@.len() == 0,
            ed.pending@.len() == 0,
    {
        Editor { config, current_buffer: window, alt_buffers: Vec::new(), pending: Vec::new() }
    }

    /// Apply one Normal-mode key: resolve it (together with any pending
    /// prefix) against the Normal-mode table and dispatch.
    pub fn handle_normal_event(&mut self, k: RawKey) -> (effs: Vec<Effect>)
        requires
            old(self).wf(),
        ensures
            final(self).wf(),
            final(self).config == old(self).config,
            final(self).alt_buffers == old(self).alt_buffers,
            ({
                let st = normal_step(
                    old(self).config.keys.normal@,
                    old(self).pending@,
                    old(self).current_buffer@,
                    k,
                );
                &&& final(self).pending@ == st.0
                &&& final(self).current_buffer@ == st.1
                &&& effs.deep_view() == st.2
            }),
    {
        match k {
            RawKey::Char(c, m) => {
                let kid = KeyId { modifier: m, ch: c };
                let r = resolve_with(&self.config.keys.normal, &self.pending, kid);
                match r {
                    None => {
                        self.pending.clear();
                        let effs: Vec<Effect> = Vec::new();
                        proof {
                            assert(effs.deep_view() =~= Seq::<EffectV>::empty());
                        }
                        effs
                    },
                    Some(ka) => {
                        let nested = match ka { KeyAction::Nested(_) => true, _ => false };
                        if nested {
                            self.pending.push(kid);
                            let effs: Vec<Effect> = Vec::new();
                            proof {
                                assert(effs.deep_view() =~= Seq::<EffectV>::empty());
                            }
                            effs
                        } else {
                            self.pending.clear();
                            let mutates = binding_mutates_exec(ka);
                            if mutates {
                                self.current_buffer.push_snapshot();
                            }
                            apply_binding(&mut self.current_buffer, ka)
                        }
                    },
                }
            },
            _ => {
                self.pending.clear();
                let effs: Vec<Effect> = Vec::new();
                proof {
                    assert(effs.deep_view() =~= Seq::<EffectV>::empty());
                }
                effs
            },
        }
    }

    /// Apply one decoded key under the current mode and hand back the
    /// effects the caller must carry out, in order.
    pub fn on_key(&mut self, k: RawKey) -> (effs: Vec<Effect>)
        requires
            old(self).wf(),
        ensures
            final(self).wf(),
            final(self).config == old(self).config,
            final(self).alt_buffers == old(self).alt_buffers,
            old(self).current_buffer@.mode == Mode::Insert ==> final(self).current_buffer@
                == insert_step(old(self).current_buffer@, k) && final(self).pending@ == old(
                self,
            ).pending@ && effs@.len() == 0,
            old(self).current_buffer@.mode == Mode::Normal ==> ({
                let st = normal_step(
                    old(self).config.keys.normal@,
                    old(self).pending@,
                    old(self).current_buffer@,
                    k,
                );
                &&& final(self).pending@ == st.0
                &&& final(self).current_buffer@ == st.1
                &&& effs.deep_view() == st.2
            }),
    {
        match self.current_buffer.mode {
            Mode::Normal => self.handle_normal_event(k),
            Mode::Insert => {
                handle_insert_event(&mut self.current_buffer, k);
                Vec::new()
            },
        }
    }
}

} // verus!
