use cosmic_text::{Change, ChangeItem, Cursor};
use uns_editor::editor_core::history::{EditKind, HistoryManager, DEBOUNCE_MS, MAX_HISTORY};

fn dummy_change(text: &str) -> Change {
    Change {
        items: vec![ChangeItem {
            start: Cursor::new(0, 0),
            end: Cursor::new(0, text.len()),
            text: text.to_string(),
            insert: true,
        }],
    }
}

fn text_of(change: &Change) -> String {
    change.items[0].text.clone()
}

#[test]
fn same_kind_within_debounce_is_not_a_new_group() {
    let mut h = HistoryManager::new();
    assert!(h.is_new_group(EditKind::Insert, 0));
    h.begin_group(EditKind::Insert, 0);
    assert!(!h.is_new_group(EditKind::Insert, 100));
}

#[test]
fn different_kind_is_a_new_group() {
    let mut h = HistoryManager::new();
    h.begin_group(EditKind::Insert, 0);
    assert!(h.is_new_group(EditKind::Delete, 100));
}

#[test]
fn timeout_forces_a_new_group() {
    let mut h = HistoryManager::new();
    h.begin_group(EditKind::Insert, 0);
    assert!(h.is_new_group(EditKind::Insert, DEBOUNCE_MS + 1));
}

#[test]
fn paste_is_always_a_new_group() {
    let mut h = HistoryManager::new();
    h.begin_group(EditKind::Paste, 0);
    assert!(h.is_new_group(EditKind::Paste, 1));
}

#[test]
fn commit_pushes_and_clears_redo() {
    let mut h = HistoryManager::new();
    h.push_redo(dummy_change("x"));
    assert!(h.can_redo());
    h.commit(dummy_change("hello"));
    assert!(h.can_undo());
    assert!(!h.can_redo());
}

#[test]
fn commit_of_empty_change_is_noop() {
    let mut h = HistoryManager::new();
    h.commit(Change::default());
    assert!(!h.can_undo());
}

#[test]
fn undo_redo_round_trip() {
    let mut h = HistoryManager::new();
    h.commit(dummy_change("hello"));
    let c = h.pop_undo().expect("undo entry");
    h.push_redo(c);
    assert!(h.can_redo());
    assert!(!h.can_undo());
    let c = h.pop_redo().expect("redo entry");
    h.push_undo(c);
    assert!(h.can_undo());
}

#[test]
fn history_cap_drops_oldest() {
    let mut h = HistoryManager::new();
    for i in 0..(MAX_HISTORY + 10) {
        h.commit(dummy_change(&format!("edit-{i}")));
    }
    assert_eq!(h.undo_len(), MAX_HISTORY);
}

#[test]
fn the_cap_keeps_the_newest_changes() {
    let mut h = HistoryManager::new();
    for i in 0..(MAX_HISTORY + 3) {
        h.commit(dummy_change(&format!("edit-{i}")));
    }
    let newest = h.pop_undo().expect("newest");
    assert_eq!(text_of(&newest), format!("edit-{}", MAX_HISTORY + 2));
    let mut oldest = None;
    while let Some(c) = h.pop_undo() {
        oldest = Some(c);
    }
    assert_eq!(text_of(&oldest.expect("oldest")), "edit-3");
}

#[test]
fn empty_commit_keeps_redo_history() {
    let mut h = HistoryManager::new();
    h.push_redo(dummy_change("x"));
    h.commit(Change::default());
    assert!(h.can_redo());
}

#[test]
fn debounce_window_is_measured_both_ways_and_inclusive() {
    let mut h = HistoryManager::new();
    h.begin_group(EditKind::Delete, 1_000);
    assert!(!h.is_new_group(EditKind::Delete, 1_000 + DEBOUNCE_MS));
    assert!(!h.is_new_group(EditKind::Delete, 1_000 - DEBOUNCE_MS));
    assert!(h.is_new_group(EditKind::Delete, 1_000 - DEBOUNCE_MS - 1));
    h.touch(2_000);
    assert!(!h.is_new_group(EditKind::Delete, 2_600));
    h.end_group();
    assert!(h.is_new_group(EditKind::Delete, 2_600));
}

#[test]
fn clear_forgets_everything() {
    let mut h = HistoryManager::default();
    h.commit(dummy_change("a"));
    h.push_redo(dummy_change("b"));
    h.begin_group(EditKind::Insert, 5);
    h.clear();
    assert!(!h.can_undo());
    assert!(!h.can_redo());
    assert!(h.is_new_group(EditKind::Insert, 5));
    assert!(h.pop_undo().is_none());
    assert!(h.pop_redo().is_none());
}
