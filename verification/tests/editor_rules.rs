use uns_editor::editor_core::commands::CoreCommandsPlugin;
use uns_editor::editor_core::events::{EditorEvent, KeyInfo};
use uns_editor::editor_core::history::EditKind;
use uns_editor::editor_core::key_actions::{key_action, KeyAction, Motion};
use uns_editor::editor_core::layout::{clip_rect, content_padding, is_vertical, toggled_orientation};
use uns_editor::text::{chars_and_cursor, contains_whitespace};

fn key(k: &str, ctrl: bool, shift: bool, alt: bool, meta: bool) -> KeyAction {
    key_action(&KeyInfo { key: k.to_string(), ctrl, shift, alt, meta })
}

#[test]
fn undo_and_redo_shortcuts() {
    assert_eq!(key("z", true, false, false, false), KeyAction::Undo);
    assert_eq!(key("Z", false, true, false, true), KeyAction::Redo);
    assert_eq!(key("y", true, false, false, false), KeyAction::Redo);
    assert_eq!(key("z", true, false, true, false), KeyAction::Ignore);
}

#[test]
fn navigation_keys_move_and_shift_extends_the_selection() {
    assert_eq!(
        key("ArrowLeft", false, true, false, false),
        KeyAction::Move { motion: Motion::Left, extend_selection: true }
    );
    assert_eq!(
        key("PageDown", true, false, false, false),
        KeyAction::Move { motion: Motion::PageDown, extend_selection: false }
    );
}

#[test]
fn editing_keys_and_typed_characters() {
    assert_eq!(key("Backspace", false, false, false, false), KeyAction::Backspace);
    assert_eq!(key("Delete", false, false, false, false), KeyAction::Delete);
    assert_eq!(key("Enter", false, false, false, false), KeyAction::Enter);
    assert_eq!(key("Tab", false, false, false, false), KeyAction::Indent);
    assert_eq!(key("ᠠ", false, false, false, false), KeyAction::Insert('ᠠ'));
    assert_eq!(key("z", false, false, true, false), KeyAction::Insert('z'));
    assert_eq!(key("Shift", false, true, false, false), KeyAction::Ignore);
    assert_eq!(key("a", true, false, false, false), KeyAction::Ignore);
    assert_eq!(key("v", true, false, false, false), KeyAction::Clipboard);
    assert_eq!(key("x", false, false, false, true), KeyAction::Clipboard);
}

#[test]
fn actions_report_their_undo_kind_and_event() {
    assert_eq!(KeyAction::Backspace.edit_kind(), Some(EditKind::Delete));
    assert_eq!(KeyAction::Enter.edit_kind(), Some(EditKind::Newline));
    assert_eq!(KeyAction::Indent.edit_kind(), Some(EditKind::Indent));
    assert_eq!(KeyAction::Insert('a').edit_kind(), Some(EditKind::Insert));
    assert_eq!(KeyAction::Undo.edit_kind(), None);
    assert!(KeyAction::Undo.changes_text());
    assert!(!KeyAction::Clipboard.changes_text());
    let moved = KeyAction::Move { motion: Motion::Up, extend_selection: false };
    assert!(matches!(moved.announced_event(), Some(EditorEvent::CursorMoved)));
    assert!(matches!(KeyAction::Delete.announced_event(), Some(EditorEvent::TextChanged)));
    assert!(KeyAction::Ignore.announced_event().is_none());
}

#[test]
fn padding_widens_the_gutter_side() {
    assert_eq!(content_padding(false, "vertical"), (10, 10));
    assert_eq!(content_padding(true, "vertical"), (10, 36));
    assert_eq!(content_padding(true, "horizontal"), (54, 10));
}

#[test]
fn orientation_toggles_back_and_forth() {
    assert_eq!(toggled_orientation("vertical"), "horizontal");
    assert_eq!(toggled_orientation("horizontal"), "vertical");
    assert_eq!(toggled_orientation("sideways"), "vertical");
    assert_eq!(toggled_orientation(toggled_orientation("vertical")), "vertical");
    assert!(is_vertical("vertical"));
    assert!(!is_vertical("horizontal"));
}

#[test]
fn rectangles_are_clipped_to_the_buffer() {
    assert_eq!(clip_rect(100, 50, -5, -5, 10, 10), Some((0, 0, 5, 5)));
    assert_eq!(clip_rect(100, 50, 95, 45, 10, 10), Some((95, 45, 100, 50)));
    assert_eq!(clip_rect(100, 50, 100, 0, 10, 10), None);
    assert_eq!(clip_rect(100, 50, -10, 0, 10, 10), None);
}

#[test]
fn cursor_byte_offsets_become_character_indices() {
    let (chars, i) = chars_and_cursor("аб\u{1820}c", 4);
    assert_eq!(chars.len(), 4);
    assert_eq!(i, 2);
    let (_, j) = chars_and_cursor("аб\u{1820}c", 7);
    assert_eq!(j, 3);
    let (_, k) = chars_and_cursor("аб", 99);
    assert_eq!(k, 2);
}

#[test]
fn core_plugin_lists_its_commands() {
    let p = CoreCommandsPlugin;
    assert_eq!(p.id(), "core.commands");
    assert_eq!(p.name(), "Core commands");
    let list = p.command_list();
    assert_eq!(list.len(), 3);
    assert_eq!(list[0].id, "editor.toggleOrientation");
    assert_eq!(list[0].keybinding, Some("Ctrl+Alt+V"));
    assert_eq!(list[1].keybinding, None);
    assert_eq!(list[2].category, Some("Editor"));
}

#[test]
fn sizes_beyond_the_signed_range_clip_to_nothing() {
    // Sizes are read as `i32`, so these count as negative.
    assert_eq!(clip_rect(100, 50, 0, 0, u32::MAX, 10), None);
    assert_eq!(clip_rect(100, 50, 0, 0, 1 << 31, 10), None);
    assert_eq!(clip_rect(u32::MAX, u32::MAX, 3, 4, 5, 6), None);
    assert_eq!(clip_rect(100, 50, 3, 4, 5, 6), Some((3, 4, 8, 10)));
}

#[test]
fn white_space_is_what_the_standard_library_says() {
    for u in 0u32..=0x4000 {
        if let Some(c) = char::from_u32(u) {
            assert_eq!(contains_whitespace(&c.to_string()), c.is_whitespace(), "U+{u:04X}");
        }
    }
    assert!(contains_whitespace("a\u{202F}b"));
    assert!(!contains_whitespace("a\u{180E}b"));
}
