//! Command metadata: what the command palette lists for each command.
//! The host pairs each command id with its handler.

use vstd::prelude::*;
use crate::text::str_eq;

verus! {

/// One invokable action, as the command palette shows it.
#[derive(Clone, Copy)]
pub struct CommandInfo {
    /// The id the command is run by, e.g. `"editor.toggleOrientation"`.
    pub id: &'static str,
    /// The palette's text for it.
    pub title: &'static str,
    /// The group it is listed under, if any ("Editor", "Find", ...).
    pub category: Option<&'static str>,
    /// A shortcut shown next to it as a hint; the key handler, not this
    /// text, decides what keys do.
    pub keybinding: Option<&'static str>,
}

/// A command's palette entry.
pub fn command(
    id: &'static str,
    title: &'static str,
    category: Option<&'static str>,
    keybinding: Option<&'static str>,
) -> (c: CommandInfo)
    ensures
        c.id == id,
        c.title == title,
        c.category == category,
        c.keybinding == keybinding,
{
    CommandInfo { id, title, category, keybinding }
}

/// A command as plain values: id, title, category, keybinding.
pub open spec fn command_view(c: CommandInfo) -> (Seq<char>, Seq<char>, Option<Seq<char>>, Option<Seq<char>>) {
    (
        c.id@,
        c.title@,
        match c.category {
            Some(s) => Some(s@),
            None => None,
        },
        match c.keybinding {
            Some(s) => Some(s@),
            None => None,
        },
    )
}

/// Whether command `k` of `cmds` is the first one run by `id`.
pub open spec fn is_first_with_id(cmds: Seq<CommandInfo>, id: Seq<char>, k: int) -> bool {
    &&& 0 <= k < cmds.len()
    &&& cmds[k].id@ == id
    &&& forall|j: int| 0 <= j < k ==> (#[trigger] cmds[j]).id@ != id
}

/// Whether some command of `cmds` is run by `id`.
pub open spec fn has_id(cmds: Seq<CommandInfo>, id: Seq<char>) -> bool {
    exists|j: int| 0 <= j < cmds.len() && (#[trigger] cmds[j]).id@ == id
}

/// The commands of the registered plugins, each plugin's taken once, when
/// it registered, and kept in registration order.
pub struct CommandRegistry {
    plugins: usize,
    commands: Vec<CommandInfo>,
}

impl CommandRegistry {
    /// How many plugins have registered.
    pub closed spec fn registered(self) -> nat {
        self.plugins as nat
    }

    /// Every command, plugins in registration order.
    pub closed spec fn command_seq(self) -> Seq<CommandInfo> {
        self.commands@
    }

    /// No plugins, no commands.
    pub fn new() -> (r: Self)
        ensures
            r.registered() == 0,
            r.command_seq().len() == 0,
    {
        CommandRegistry { plugins: 0, commands: Vec::new() }
    }

    /// Register a plugin with the commands it contributes; returns the
    /// plugin's index among the registered ones.
    pub fn register(&mut self, commands: Vec<CommandInfo>) -> (index: usize)
        requires
            old(self).registered() < usize::MAX,
        ensures
            index == old(self).registered(),
            final(self).registered() == old(self).registered() + 1,
            final(self).command_seq() == old(self).command_seq() + commands@,
    {
        let mut commands = commands;
        self.commands.append(&mut commands);
        let index = self.plugins;
        self.plugins = self.plugins + 1;
        index
    }

    /// The position of the first command run by `id`, if any.
    pub fn find_command(&self, id: &str) -> (r: Option<usize>)
        ensures
            r is Some <==> has_id(self.command_seq(), id@),
            r matches Some(k) ==> is_first_with_id(self.command_seq(), id@, k as int),
    {
        let mut i: usize = 0;
        while i < self.commands.len()
            invariant
                i <= self.commands@.len(),
                forall|j: int| 0 <= j < i ==> (#[trigger] self.commands@[j]).id@ != id@,
            decreases self.commands@.len() - i,
        {
            if str_eq(self.commands[i].id, id) {
                return Some(i);
            }
            i += 1;
        }
        None
    }

    /// Command `k`.
    pub fn command(&self, k: usize) -> (r: &CommandInfo)
        requires
            k < self.command_seq().len(),
        ensures
            *r == self.command_seq()[k as int],
    {
        &self.commands[k]
    }

    /// Every command, plugins in registration order.
    pub fn commands(&self) -> (r: &[CommandInfo])
        ensures
            r@ == self.command_seq(),
    {
        self.commands.as_slice()
    }

    /// How many plugins have registered.
    pub fn plugin_count(&self) -> (r: usize)
        ensures
            r == self.registered(),
    {
        self.plugins
    }
}

/// Registering a plugin never changes which command an id already ran;
/// an id no earlier command had runs the first of the new commands with
/// it; and every new command can be found by its id.
pub proof fn lemma_registration_keeps_lookups(before: Seq<CommandInfo>, added: Seq<CommandInfo>, id: Seq<char>)
    ensures
        forall|k: int| is_first_with_id(before, id, k) ==> #[trigger] is_first_with_id(before + added, id, k),
        forall|k: int|
            !has_id(before, id) && is_first_with_id(added, id, k) ==> #[trigger] is_first_with_id(
                before + added,
                id,
                before.len() + k,
            ),
        has_id(added, id) ==> has_id(before + added, id),
{
    let all = before + added;
    assert forall|k: int| is_first_with_id(before, id, k) implies #[trigger] is_first_with_id(all, id, k) by {
        assert forall|j: int| 0 <= j < k implies (#[trigger] all[j]).id@ != id by {
            assert(all[j] == before[j]);
        }
    }
    assert forall|k: int| !has_id(before, id) && is_first_with_id(added, id, k) implies #[trigger] is_first_with_id(
        all,
        id,
        before.len() + k,
    ) by {
        assert(all[before.len() + k] == added[k]);
        assert forall|j: int| 0 <= j < before.len() + k implies (#[trigger] all[j]).id@ != id by {
            if j < before.len() {
                assert(all[j] == before[j]);
            } else {
                assert(all[j] == added[j - before.len()]);
            }
        }
    }
    if has_id(added, id) {
        let j = choose|j: int| 0 <= j < added.len() && (#[trigger] added[j]).id@ == id;
        assert(all[before.len() + j] == added[j]);
    }
}

/// Contributes commands that mirror the editor's built-in keybindings
/// and toolbar actions, so the command palette is useful out of the box.
pub struct CoreCommandsPlugin;

/// The core commands, in palette order.
pub open spec fn core_command_table() -> Seq<(Seq<char>, Seq<char>, Option<Seq<char>>, Option<Seq<char>>)> {
    seq![
        ("editor.toggleOrientation"@, "Editor: Toggle Vertical / Horizontal Orientation"@, Some("Editor"@), Some("Ctrl+Alt+V"@)),
        ("editor.resetSettings"@, "Editor: Reset Settings to Defaults"@, Some("Editor"@), None),
        ("editor.clearSelection"@, "Editor: Clear Selection"@, Some("Editor"@), Some("Esc"@))
    ]
}

impl CoreCommandsPlugin {
    pub fn id(&self) -> (r: &'static str)
        ensures
            r@ == "core.commands"@,
    {
        "core.commands"
    }

    pub fn name(&self) -> (r: &'static str)
        ensures
            r@ == "Core commands"@,
    {
        "Core commands"
    }

    /// The commands this plugin contributes, in palette order.
    pub fn command_list(&self) -> (r: Vec<CommandInfo>)
        ensures
            r@.len() == core_command_table().len(),
            forall|i: int| 0 <= i < r@.len() ==> command_view(#[trigger] r@[i]) == core_command_table()[i],
    {
        let mut v: Vec<CommandInfo> = Vec::new();
        v.push(command("editor.toggleOrientation", "Editor: Toggle Vertical / Horizontal Orientation", Some("Editor"), Some("Ctrl+Alt+V")));
        v.push(command("editor.resetSettings", "Editor: Reset Settings to Defaults", Some("Editor"), None));
        v.push(command("editor.clearSelection", "Editor: Clear Selection", Some("Editor"), Some("Esc")));
        v
    }
}

} // verus!
