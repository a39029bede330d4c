use uns_editor::config::keybindings::default_keybindings;

#[test]
fn action_ids_are_unique() {
    let bindings = default_keybindings();
    let mut ids: Vec<&str> = bindings.iter().map(|b| b.id).collect();
    ids.sort_unstable();
    ids.dedup();
    assert_eq!(ids.len(), bindings.len());
}

#[test]
fn default_combos_are_unique() {
    let bindings = default_keybindings();
    let mut combos: Vec<&str> = bindings.iter().map(|b| b.default).collect();
    combos.sort_unstable();
    combos.dedup();
    assert_eq!(combos.len(), bindings.len());
}

#[test]
fn keybinding_table_starts_with_the_command_palette() {
    let bindings = default_keybindings();
    assert_eq!(bindings.len(), 16);
    assert_eq!(bindings[0].id, "editor.commandPalette");
    assert_eq!(bindings[0].label, "Command Palette");
    assert_eq!(bindings[0].default, "Ctrl+Shift+P");
    assert_eq!(bindings[15].default, "Ctrl+Alt+I");
}

#[test]
fn keybindings_serializes_to_the_shape_the_js_settings_modal_expects() {
    // The page reads `{ id, label, default }` strings; the library hands
    // over exactly those three fields, none of them empty.
    let bindings = default_keybindings();
    assert!(!bindings.is_empty());
    for b in &bindings {
        assert!(!b.id.is_empty());
        assert!(!b.label.is_empty());
        assert!(!b.default.is_empty());
    }
}
