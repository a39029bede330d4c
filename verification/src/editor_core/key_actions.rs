//! What a key press does to the editor.
//!
//! Key handling is split in two: this module decides, from the key and
//! its modifiers, which editing action a key press stands for; the host
//! performs that action on the text buffer and reports it. Undo and
//! redo are handled here rather than by the browser because they only
//! touch internal editor state; copy, cut and paste are left to the
//! browser, which owns the clipboard.

use vstd::prelude::*;
use crate::editor_core::events::{EditorEvent, KeyInfo};
use crate::editor_core::history::EditKind;
use crate::text::{chars_of, str_eq};

verus! {

/// A cursor motion.
#[derive(Debug, Clone, Copy, PartialEq, Eq, Structural)]
pub enum Motion {
    Left,
    Right,
    Up,
    Down,
    Home,
    End,
    PageUp,
    PageDown,
}

/// The editing action a key press stands for.
#[derive(Debug, Clone, Copy, PartialEq, Eq, Structural)]
pub enum KeyAction {
    Undo,
    Redo,
    /// Move the cursor; with Shift held the selection is extended,
    /// otherwise it is dropped.
    Move { motion: Motion, extend_selection: bool },
    Backspace,
    Delete,
    Enter,
    Indent,
    /// Type one character.
    Insert(char),
    /// Copy, cut or paste: left to the browser, which owns the clipboard.
    Clipboard,
    /// Nothing to do (a bare modifier, a function key, ...).
    Ignore,
}

/// The motion a navigation key names, if it is one.
pub open spec fn motion_key(key: Seq<char>) -> Option<Motion> {
    if key == "ArrowLeft"@ {
        Some(Motion::Left)
    } else if key == "ArrowRight"@ {
        Some(Motion::Right)
    } else if key == "ArrowUp"@ {
        Some(Motion::Up)
    } else if key == "ArrowDown"@ {
        Some(Motion::Down)
    } else if key == "Home"@ {
        Some(Motion::Home)
    } else if key == "End"@ {
        Some(Motion::End)
    } else if key == "PageUp"@ {
        Some(Motion::PageUp)
    } else if key == "PageDown"@ {
        Some(Motion::PageDown)
    } else {
        None
    }
}

/// The action for `key` with the given modifiers. Ctrl and Meta (Cmd)
/// count alike. Ctrl+Z undoes and Ctrl+Shift+Z redoes, Ctrl+Y redoes
/// (not with Alt); navigation keys move; Backspace, Delete, Enter and
/// Tab edit; Ctrl+V/C/X go to the browser; any other key that is a
/// single character is typed unless Ctrl or Meta is held.
pub open spec fn spec_key_action(key: Seq<char>, ctrl: bool, shift: bool, alt: bool, meta: bool) -> KeyAction {
    let cm = ctrl || meta;
    if cm && !alt && (key == "z"@ || key == "Z"@) {
        if shift {
            KeyAction::Redo
        } else {
            KeyAction::Undo
        }
    } else if cm && !alt && (key == "y"@ || key == "Y"@) {
        KeyAction::Redo
    } else if motion_key(key) is Some {
        KeyAction::Move { motion: motion_key(key).unwrap(), extend_selection: shift }
    } else if key == "Backspace"@ {
        KeyAction::Backspace
    } else if key == "Delete"@ {
        KeyAction::Delete
    } else if key == "Enter"@ {
        KeyAction::Enter
    } else if key == "Tab"@ {
        KeyAction::Indent
    } else if cm && (key == "v"@ || key == "c"@ || key == "x"@) {
        KeyAction::Clipboard
    } else if !cm && key.len() == 1 {
        KeyAction::Insert(key[0])
    } else {
        KeyAction::Ignore
    }
}

fn motion_of(key: &str) -> (r: Option<Motion>)
    ensures
        r == motion_key(key@),
{
    if str_eq(key, "ArrowLeft") {
        Some(Motion::Left)
    } else if str_eq(key, "ArrowRight") {
        Some(Motion::Right)
    } else if str_eq(key, "ArrowUp") {
        Some(Motion::Up)
    } else if str_eq(key, "ArrowDown") {
        Some(Motion::Down)
    } else if str_eq(key, "Home") {
        Some(Motion::Home)
    } else if str_eq(key, "End") {
        Some(Motion::End)
    } else if str_eq(key, "PageUp") {
        Some(Motion::PageUp)
    } else if str_eq(key, "PageDown") {
        Some(Motion::PageDown)
    } else {
        None
    }
}

/// The action a key press stands for, as [`spec_key_action`] decides.
pub fn key_action(info: &KeyInfo) -> (r: KeyAction)
    ensures
        r == spec_key_action(info.key@, info.ctrl, info.shift, info.alt, info.meta),
{
    let key = info.key.as_str();
    let cm = info.ctrl_or_meta();
    if cm && !info.alt && (str_eq(key, "z") || str_eq(key, "Z")) {
        return if info.shift {
            KeyAction::Redo
        } else {
            KeyAction::Undo
        };
    }
    if cm && !info.alt && (str_eq(key, "y") || str_eq(key, "Y")) {
        return KeyAction::Redo;
    }
    if let Some(motion) = motion_of(key) {
        return KeyAction::Move { motion, extend_selection: info.shift };
    }
    if str_eq(key, "Backspace") {
        return KeyAction::Backspace;
    }
    if str_eq(key, "Delete") {
        return KeyAction::Delete;
    }
    if str_eq(key, "Enter") {
        return KeyAction::Enter;
    }
    if str_eq(key, "Tab") {
        return KeyAction::Indent;
    }
    if cm && (str_eq(key, "v") || str_eq(key, "c") || str_eq(key, "x")) {
        return KeyAction::Clipboard;
    }
    if !cm {
        let chars = chars_of(key);
        if chars.len() == 1 {
            return KeyAction::Insert(chars[0]);
        }
    }
    KeyAction::Ignore
}

/// The undo-grouping kind of an action that edits the text.
pub open spec fn spec_edit_kind(a: KeyAction) -> Option<EditKind> {
    match a {
        KeyAction::Backspace | KeyAction::Delete => Some(EditKind::Delete),
        KeyAction::Enter => Some(EditKind::Newline),
        KeyAction::Indent => Some(EditKind::Indent),
        KeyAction::Insert(_) => Some(EditKind::Insert),
        _ => None,
    }
}

/// Whether the key press changed the buffer text: what the host uses to
/// refresh (rather than dismiss) word suggestions.
pub open spec fn spec_changes_text(a: KeyAction) -> bool {
    a is Undo || a is Redo || spec_edit_kind(a) is Some
}

/// The event announced once the action is done, if any.
pub open spec fn spec_announced(a: KeyAction) -> Option<EditorEvent> {
    if spec_changes_text(a) {
        Some(EditorEvent::TextChanged)
    } else if a is Move {
        Some(EditorEvent::CursorMoved)
    } else {
        None
    }
}

impl KeyAction {
    /// The undo-grouping kind, for actions that edit the text; cursor
    /// motions instead end the group in progress.
    pub fn edit_kind(&self) -> (r: Option<EditKind>)
        ensures
            r == spec_edit_kind(*self),
    {
        match self {
            KeyAction::Backspace | KeyAction::Delete => Some(EditKind::Delete),
            KeyAction::Enter => Some(EditKind::Newline),
            KeyAction::Indent => Some(EditKind::Indent),
            KeyAction::Insert(_) => Some(EditKind::Insert),
            _ => None,
        }
    }

    /// Whether performing the action changes the text.
    pub fn changes_text(&self) -> (r: bool)
        ensures
            r == spec_changes_text(*self),
    {
        match self {
            KeyAction::Undo | KeyAction::Redo => true,
            _ => self.edit_kind().is_some(),
        }
    }

    /// The event to announce after performing the action.
    pub fn announced_event(&self) -> (r: Option<EditorEvent>)
        ensures
            r == spec_announced(*self),
    {
        if self.changes_text() {
            Some(EditorEvent::TextChanged)
        } else if let KeyAction::Move { .. } = self {
            Some(EditorEvent::CursorMoved)
        } else {
            None
        }
    }
}

/// With Ctrl or Meta held, a key press never types a character.
pub proof fn lemma_shortcuts_never_type(key: Seq<char>, ctrl: bool, shift: bool, alt: bool, meta: bool)
    requires
        ctrl || meta,
    ensures
        !(spec_key_action(key, ctrl, shift, alt, meta) is Insert),
{
}

/// Without Ctrl or Meta, a key that is a single character types exactly
/// that character, whatever Shift and Alt say.
pub proof fn lemma_plain_characters_are_typed(c: char, shift: bool, alt: bool)
    ensures
        spec_key_action(seq![c], false, shift, alt, false) == KeyAction::Insert(c),
{
    reveal_strlit("ArrowLeft");
    reveal_strlit("ArrowRight");
    reveal_strlit("ArrowUp");
    reveal_strlit("ArrowDown");
    reveal_strlit("Home");
    reveal_strlit("End");
    reveal_strlit("PageUp");
    reveal_strlit("PageDown");
    reveal_strlit("Backspace");
    reveal_strlit("Delete");
    reveal_strlit("Enter");
    reveal_strlit("Tab");
    let k = seq![c];
    assert(k.len() == 1);
    assert(motion_key(k) is None);
}

/// A key naming a motion, longer than one character, moves whatever the
/// modifiers.
proof fn lemma_moving_key(key: Seq<char>, m: Motion, ctrl: bool, shift: bool, alt: bool, meta: bool)
    requires
        motion_key(key) == Some(m),
        key.len() > 1,
    ensures
        spec_key_action(key, ctrl, shift, alt, meta) == (KeyAction::Move { motion: m, extend_selection: shift }),
{
    reveal_strlit("z");
    reveal_strlit("Z");
    reveal_strlit("y");
    reveal_strlit("Y");
}

/// Every navigation key moves the way its name says, whichever modifiers
/// are held: the arrows left, right, up and down, Home and End to the
/// line's ends, PageUp and PageDown by a page; with Shift the selection is
/// extended, otherwise dropped.
pub proof fn lemma_navigation_keys_move_as_named(ctrl: bool, shift: bool, alt: bool, meta: bool)
    ensures
        spec_key_action("ArrowLeft"@, ctrl, shift, alt, meta) == (KeyAction::Move { motion: Motion::Left, extend_selection: shift }),
        spec_key_action("ArrowRight"@, ctrl, shift, alt, meta) == (KeyAction::Move { motion: Motion::Right, extend_selection: shift }),
        spec_key_action("ArrowUp"@, ctrl, shift, alt, meta) == (KeyAction::Move { motion: Motion::Up, extend_selection: shift }),
        spec_key_action("ArrowDown"@, ctrl, shift, alt, meta) == (KeyAction::Move { motion: Motion::Down, extend_selection: shift }),
        spec_key_action("Home"@, ctrl, shift, alt, meta) == (KeyAction::Move { motion: Motion::Home, extend_selection: shift }),
        spec_key_action("End"@, ctrl, shift, alt, meta) == (KeyAction::Move { motion: Motion::End, extend_selection: shift }),
        spec_key_action("PageUp"@, ctrl, shift, alt, meta) == (KeyAction::Move { motion: Motion::PageUp, extend_selection: shift }),
        spec_key_action("PageDown"@, ctrl, shift, alt, meta) == (KeyAction::Move { motion: Motion::PageDown, extend_selection: shift }),
{
    assert(motion_key("ArrowLeft"@) == Some(Motion::Left) && "ArrowLeft"@.len() > 1) by {
        reveal_strlit("ArrowLeft");
    }
    lemma_moving_key("ArrowLeft"@, Motion::Left, ctrl, shift, alt, meta);
    assert(motion_key("ArrowRight"@) == Some(Motion::Right) && "ArrowRight"@.len() > 1) by {
        reveal_strlit("ArrowLeft");
        reveal_strlit("ArrowRight");
    }
    lemma_moving_key("ArrowRight"@, Motion::Right, ctrl, shift, alt, meta);
    assert(motion_key("ArrowUp"@) == Some(Motion::Up) && "ArrowUp"@.len() > 1) by {
        reveal_strlit("ArrowLeft");
        reveal_strlit("ArrowRight");
        reveal_strlit("ArrowUp");
    }
    lemma_moving_key("ArrowUp"@, Motion::Up, ctrl, shift, alt, meta);
    assert(motion_key("ArrowDown"@) == Some(Motion::Down) && "ArrowDown"@.len() > 1) by {
        reveal_strlit("ArrowLeft");
        reveal_strlit("ArrowRight");
        reveal_strlit("ArrowUp");
        reveal_strlit("ArrowDown");
        assert("ArrowDown"@[5] != "ArrowLeft"@[5]);
    }
    lemma_moving_key("ArrowDown"@, Motion::Down, ctrl, shift, alt, meta);
    assert(motion_key("Home"@) == Some(Motion::Home) && "Home"@.len() > 1) by {
        reveal_strlit("ArrowLeft");
        reveal_strlit("ArrowRight");
        reveal_strlit("ArrowUp");
        reveal_strlit("ArrowDown");
        reveal_strlit("Home");
    }
    lemma_moving_key("Home"@, Motion::Home, ctrl, shift, alt, meta);
    assert(motion_key("End"@) == Some(Motion::End) && "End"@.len() > 1) by {
        reveal_strlit("ArrowLeft");
        reveal_strlit("ArrowRight");
        reveal_strlit("ArrowUp");
        reveal_strlit("ArrowDown");
        reveal_strlit("Home");
        reveal_strlit("End");
    }
    lemma_moving_key("End"@, Motion::End, ctrl, shift, alt, meta);
    assert(motion_key("PageUp"@) == Some(Motion::PageUp) && "PageUp"@.len() > 1) by {
        reveal_strlit("ArrowLeft");
        reveal_strlit("ArrowRight");
        reveal_strlit("ArrowUp");
        reveal_strlit("ArrowDown");
        reveal_strlit("Home");
        reveal_strlit("End");
        reveal_strlit("PageUp");
    }
    lemma_moving_key("PageUp"@, Motion::PageUp, ctrl, shift, alt, meta);
    assert(motion_key("PageDown"@) == Some(Motion::PageDown) && "PageDown"@.len() > 1) by {
        reveal_strlit("ArrowLeft");
        reveal_strlit("ArrowRight");
        reveal_strlit("ArrowUp");
        reveal_strlit("ArrowDown");
        reveal_strlit("Home");
        reveal_strlit("End");
        reveal_strlit("PageUp");
        reveal_strlit("PageDown");
    }
    lemma_moving_key("PageDown"@, Motion::PageDown, ctrl, shift, alt, meta);
}

/// Sequences of different lengths differ.
proof fn lemma_lengths_differ(a: Seq<char>, b: Seq<char>)
    requires
        a.len() != b.len(),
    ensures
        a != b,
{
}

/// Sequences that differ at one position differ.
proof fn lemma_differ_at(a: Seq<char>, b: Seq<char>, i: int)
    requires
        0 <= i < a.len(),
        i < b.len(),
        a[i] != b[i],
    ensures
        a != b,
{
}

/// A key that is none of the navigation keys names no motion.
proof fn lemma_not_a_motion(key: Seq<char>)
    requires
        key != "ArrowLeft"@,
        key != "ArrowRight"@,
        key != "ArrowUp"@,
        key != "ArrowDown"@,
        key != "Home"@,
        key != "End"@,
        key != "PageUp"@,
        key != "PageDown"@,
    ensures
        motion_key(key) is None,
{
}

/// Backspace, Delete, Enter and Tab edit the text (Tab indents), whichever
/// modifiers are held.
pub proof fn lemma_editing_keys(ctrl: bool, shift: bool, alt: bool, meta: bool)
    ensures
        spec_key_action("Backspace"@, ctrl, shift, alt, meta) == KeyAction::Backspace,
        spec_key_action("Delete"@, ctrl, shift, alt, meta) == KeyAction::Delete,
        spec_key_action("Enter"@, ctrl, shift, alt, meta) == KeyAction::Enter,
        spec_key_action("Tab"@, ctrl, shift, alt, meta) == KeyAction::Indent,
{
    reveal_strlit("ArrowLeft");
    reveal_strlit("ArrowRight");
    reveal_strlit("ArrowUp");
    reveal_strlit("ArrowDown");
    reveal_strlit("Home");
    reveal_strlit("End");
    reveal_strlit("PageUp");
    reveal_strlit("PageDown");
    reveal_strlit("Backspace");
    reveal_strlit("Delete");
    reveal_strlit("Enter");
    reveal_strlit("Tab");
    lemma_differ_at("Backspace"@, "ArrowLeft"@, 0);
    lemma_lengths_differ("Backspace"@, "ArrowRight"@);
    lemma_lengths_differ("Backspace"@, "ArrowUp"@);
    lemma_differ_at("Backspace"@, "ArrowDown"@, 0);
    lemma_lengths_differ("Backspace"@, "Home"@);
    lemma_lengths_differ("Backspace"@, "End"@);
    lemma_lengths_differ("Backspace"@, "PageUp"@);
    lemma_lengths_differ("Backspace"@, "PageDown"@);
    lemma_not_a_motion("Backspace"@);
    lemma_lengths_differ("Delete"@, "ArrowLeft"@);
    lemma_lengths_differ("Delete"@, "ArrowRight"@);
    lemma_lengths_differ("Delete"@, "ArrowUp"@);
    lemma_lengths_differ("Delete"@, "ArrowDown"@);
    lemma_lengths_differ("Delete"@, "Home"@);
    lemma_lengths_differ("Delete"@, "End"@);
    lemma_differ_at("Delete"@, "PageUp"@, 0);
    lemma_lengths_differ("Delete"@, "PageDown"@);
    lemma_not_a_motion("Delete"@);
    lemma_lengths_differ("Enter"@, "ArrowLeft"@);
    lemma_lengths_differ("Enter"@, "ArrowRight"@);
    lemma_lengths_differ("Enter"@, "ArrowUp"@);
    lemma_lengths_differ("Enter"@, "ArrowDown"@);
    lemma_lengths_differ("Enter"@, "Home"@);
    lemma_lengths_differ("Enter"@, "End"@);
    lemma_lengths_differ("Enter"@, "PageUp"@);
    lemma_lengths_differ("Enter"@, "PageDown"@);
    lemma_not_a_motion("Enter"@);
    lemma_lengths_differ("Tab"@, "ArrowLeft"@);
    lemma_lengths_differ("Tab"@, "ArrowRight"@);
    lemma_lengths_differ("Tab"@, "ArrowUp"@);
    lemma_lengths_differ("Tab"@, "ArrowDown"@);
    lemma_lengths_differ("Tab"@, "Home"@);
    lemma_differ_at("Tab"@, "End"@, 0);
    lemma_lengths_differ("Tab"@, "PageUp"@);
    lemma_lengths_differ("Tab"@, "PageDown"@);
    lemma_not_a_motion("Tab"@);
    reveal_strlit("z");
    reveal_strlit("Z");
    reveal_strlit("y");
    reveal_strlit("Y");
    reveal_strlit("Backspace");
    reveal_strlit("Delete");
    reveal_strlit("Enter");
    reveal_strlit("Tab");
    lemma_lengths_differ("Backspace"@, "z"@);
    lemma_lengths_differ("Backspace"@, "Z"@);
    lemma_lengths_differ("Backspace"@, "y"@);
    lemma_lengths_differ("Backspace"@, "Y"@);
    lemma_lengths_differ("Delete"@, "z"@);
    lemma_lengths_differ("Delete"@, "Z"@);
    lemma_lengths_differ("Delete"@, "y"@);
    lemma_lengths_differ("Delete"@, "Y"@);
    lemma_lengths_differ("Delete"@, "Backspace"@);
    lemma_lengths_differ("Enter"@, "z"@);
    lemma_lengths_differ("Enter"@, "Z"@);
    lemma_lengths_differ("Enter"@, "y"@);
    lemma_lengths_differ("Enter"@, "Y"@);
    lemma_lengths_differ("Enter"@, "Backspace"@);
    lemma_lengths_differ("Enter"@, "Delete"@);
    lemma_lengths_differ("Tab"@, "z"@);
    lemma_lengths_differ("Tab"@, "Z"@);
    lemma_lengths_differ("Tab"@, "y"@);
    lemma_lengths_differ("Tab"@, "Y"@);
    lemma_lengths_differ("Tab"@, "Backspace"@);
    lemma_lengths_differ("Tab"@, "Delete"@);
    lemma_lengths_differ("Tab"@, "Enter"@);
}

/// Ctrl or Meta with a clipboard key, which is none of the other keys
/// handled before it, goes to the browser.
proof fn lemma_clipboard_key(key: Seq<char>, ctrl: bool, shift: bool, alt: bool, meta: bool)
    requires
        ctrl || meta,
        key == "v"@ || key == "c"@ || key == "x"@,
        key != "z"@ && key != "Z"@ && key != "y"@ && key != "Y"@,
        motion_key(key) is None,
        key != "Backspace"@ && key != "Delete"@ && key != "Enter"@ && key != "Tab"@,
    ensures
        spec_key_action(key, ctrl, shift, alt, meta) == KeyAction::Clipboard,
{
}

/// With Ctrl or Meta held and no Alt: Z undoes, Shift+Z redoes, Y redoes
/// (either case of the letter); and Ctrl or Meta with V, C or X is left to
/// the browser's clipboard.
pub proof fn lemma_shortcut_keys(ctrl: bool, shift: bool, alt: bool, meta: bool)
    requires
        ctrl || meta,
    ensures
        !alt ==> spec_key_action("z"@, ctrl, shift, alt, meta) == (if shift {
            KeyAction::Redo
        } else {
            KeyAction::Undo
        }),
        !alt ==> spec_key_action("Z"@, ctrl, shift, alt, meta) == (if shift {
            KeyAction::Redo
        } else {
            KeyAction::Undo
        }),
        !alt ==> spec_key_action("y"@, ctrl, shift, alt, meta) == KeyAction::Redo,
        !alt ==> spec_key_action("Y"@, ctrl, shift, alt, meta) == KeyAction::Redo,
        spec_key_action("v"@, ctrl, shift, alt, meta) == KeyAction::Clipboard,
        spec_key_action("c"@, ctrl, shift, alt, meta) == KeyAction::Clipboard,
        spec_key_action("x"@, ctrl, shift, alt, meta) == KeyAction::Clipboard,
{
    reveal_strlit("z");
    reveal_strlit("Z");
    reveal_strlit("y");
    reveal_strlit("Y");
    lemma_differ_at("y"@, "z"@, 0);
    lemma_differ_at("y"@, "Z"@, 0);
    lemma_differ_at("Y"@, "z"@, 0);
    lemma_differ_at("Y"@, "Z"@, 0);
    reveal_strlit("ArrowLeft");
    reveal_strlit("ArrowRight");
    reveal_strlit("ArrowUp");
    reveal_strlit("ArrowDown");
    reveal_strlit("Home");
    reveal_strlit("End");
    reveal_strlit("PageUp");
    reveal_strlit("PageDown");
    reveal_strlit("v");
    reveal_strlit("c");
    reveal_strlit("x");
    lemma_lengths_differ("v"@, "ArrowLeft"@);
    lemma_lengths_differ("v"@, "ArrowRight"@);
    lemma_lengths_differ("v"@, "ArrowUp"@);
    lemma_lengths_differ("v"@, "ArrowDown"@);
    lemma_lengths_differ("v"@, "Home"@);
    lemma_lengths_differ("v"@, "End"@);
    lemma_lengths_differ("v"@, "PageUp"@);
    lemma_lengths_differ("v"@, "PageDown"@);
    lemma_not_a_motion("v"@);
    lemma_lengths_differ("c"@, "ArrowLeft"@);
    lemma_lengths_differ("c"@, "ArrowRight"@);
    lemma_lengths_differ("c"@, "ArrowUp"@);
    lemma_lengths_differ("c"@, "ArrowDown"@);
    lemma_lengths_differ("c"@, "Home"@);
    lemma_lengths_differ("c"@, "End"@);
    lemma_lengths_differ("c"@, "PageUp"@);
    lemma_lengths_differ("c"@, "PageDown"@);
    lemma_not_a_motion("c"@);
    lemma_lengths_differ("x"@, "ArrowLeft"@);
    lemma_lengths_differ("x"@, "ArrowRight"@);
    lemma_lengths_differ("x"@, "ArrowUp"@);
    lemma_lengths_differ("x"@, "ArrowDown"@);
    lemma_lengths_differ("x"@, "Home"@);
    lemma_lengths_differ("x"@, "End"@);
    lemma_lengths_differ("x"@, "PageUp"@);
    lemma_lengths_differ("x"@, "PageDown"@);
    lemma_not_a_motion("x"@);
    reveal_strlit("z");
    reveal_strlit("Z");
    reveal_strlit("y");
    reveal_strlit("Y");
    reveal_strlit("v");
    reveal_strlit("c");
    reveal_strlit("x");
    reveal_strlit("Backspace");
    reveal_strlit("Delete");
    reveal_strlit("Enter");
    reveal_strlit("Tab");
    lemma_differ_at("v"@, "z"@, 0);
    lemma_differ_at("v"@, "Z"@, 0);
    lemma_differ_at("v"@, "y"@, 0);
    lemma_differ_at("v"@, "Y"@, 0);
    lemma_lengths_differ("v"@, "Backspace"@);
    lemma_lengths_differ("v"@, "Delete"@);
    lemma_lengths_differ("v"@, "Enter"@);
    lemma_lengths_differ("v"@, "Tab"@);
    lemma_differ_at("c"@, "z"@, 0);
    lemma_differ_at("c"@, "Z"@, 0);
    lemma_differ_at("c"@, "y"@, 0);
    lemma_differ_at("c"@, "Y"@, 0);
    lemma_lengths_differ("c"@, "Backspace"@);
    lemma_lengths_differ("c"@, "Delete"@);
    lemma_lengths_differ("c"@, "Enter"@);
    lemma_lengths_differ("c"@, "Tab"@);
    lemma_differ_at("c"@, "v"@, 0);
    lemma_differ_at("x"@, "z"@, 0);
    lemma_differ_at("x"@, "Z"@, 0);
    lemma_differ_at("x"@, "y"@, 0);
    lemma_differ_at("x"@, "Y"@, 0);
    lemma_lengths_differ("x"@, "Backspace"@);
    lemma_lengths_differ("x"@, "Delete"@);
    lemma_lengths_differ("x"@, "Enter"@);
    lemma_lengths_differ("x"@, "Tab"@);
    lemma_differ_at("x"@, "v"@, 0);
    lemma_differ_at("x"@, "c"@, 0);
    lemma_clipboard_key("v"@, ctrl, shift, alt, meta);
    lemma_clipboard_key("c"@, ctrl, shift, alt, meta);
    lemma_clipboard_key("x"@, ctrl, shift, alt, meta);
}

} // verus!
