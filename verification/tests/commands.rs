use uns_editor::editor_core::commands::{command, CommandRegistry, CoreCommandsPlugin};
use uns_editor::plugins::find_replace::FindReplacePlugin;

#[test]
fn registry_captures_commands_at_registration_time() {
    let mut reg = CommandRegistry::new();
    reg.register(vec![command("test.noop", "Test: no-op", None, None)]);
    assert_eq!(reg.plugin_count(), 1);
    assert!(reg.find_command("test.noop").is_some());
    assert!(reg.find_command("missing").is_none());
}

#[test]
fn registry_lists_commands_in_registration_order_and_finds_the_first() {
    let mut reg = CommandRegistry::new();
    assert_eq!(reg.register(CoreCommandsPlugin.command_list()), 0);
    assert_eq!(reg.register(FindReplacePlugin.command_list()), 1);
    assert_eq!(reg.plugin_count(), 2);
    let ids: Vec<&str> = reg.commands().iter().map(|c| c.id).collect();
    assert_eq!(ids[0], "editor.toggleOrientation");
    assert_eq!(ids[3], "editor.find.setQuery");
    assert_eq!(reg.find_command("editor.clearSelection"), Some(2));
    assert_eq!(reg.command(3).id, "editor.find.setQuery");

    // A later plugin with an id already taken does not shadow it.
    reg.register(vec![command("editor.clearSelection", "Other", None, None)]);
    assert_eq!(reg.find_command("editor.clearSelection"), Some(2));
    assert_eq!(reg.commands().len(), ids.len() + 1);
}
