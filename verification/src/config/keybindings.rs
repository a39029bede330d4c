//! Default shortcuts for the host application's own actions.
//!
//! Text-editing keys are decided by the key handler and cannot be
//! rebound; this table covers the remaining, application-level actions
//! (palette, search, zoom, tabs, files, transliteration, input mode).
//! The host keeps user overrides and does the key matching; the library
//! only supplies the defaults.

use vstd::prelude::*;

verus! {

pub struct KeyBinding {
    /// Action identifier, in the same `editor.*` namespace the commands
    /// use.
    pub id: &'static str,
    /// What the settings screen calls the action.
    pub label: &'static str,
    /// The combo bound out of the box, written like `"Ctrl+Shift+P"`
    /// (`Ctrl` standing for Ctrl or Cmd).
    pub default: &'static str,
}

/// The action ids, in display order.
pub open spec fn keybinding_ids() -> Seq<Seq<char>> {
    seq![
        "editor.commandPalette"@,
        "editor.find"@,
        "editor.findReplace"@,
        "editor.findNext"@,
        "editor.findPrev"@,
        "editor.zoomIn"@,
        "editor.zoomOut"@,
        "editor.newTab"@,
        "editor.closeTab"@,
        "editor.cycleTabNext"@,
        "editor.cycleTabPrev"@,
        "editor.save"@,
        "editor.open"@,
        "editor.export"@,
        "editor.transliterate"@,
        "editor.toggleInputMode"@
    ]
}

/// The labels, position by position with [`keybinding_ids`].
pub open spec fn keybinding_labels() -> Seq<Seq<char>> {
    seq![
        "Command Palette"@,
        "Find"@,
        "Find and Replace"@,
        "Find Next"@,
        "Find Previous"@,
        "Zoom In"@,
        "Zoom Out"@,
        "New Tab"@,
        "Close Tab"@,
        "Next Tab"@,
        "Previous Tab"@,
        "Save"@,
        "Open File"@,
        "Export as PNG"@,
        "Transliterate"@,
        "Toggle Input Mode"@
    ]
}

/// The default combos, position by position with [`keybinding_ids`].
pub open spec fn keybinding_defaults() -> Seq<Seq<char>> {
    seq![
        "Ctrl+Shift+P"@,
        "Ctrl+F"@,
        "Ctrl+H"@,
        "F3"@,
        "Shift+F3"@,
        "Ctrl+="@,
        "Ctrl+-"@,
        "Ctrl+N"@,
        "Ctrl+W"@,
        "Ctrl+Tab"@,
        "Ctrl+Shift+Tab"@,
        "Ctrl+S"@,
        "Ctrl+O"@,
        "Ctrl+E"@,
        "Ctrl+T"@,
        "Ctrl+Alt+I"@
    ]
}

/// The configurable actions as `(id, label, default combo)`, in display
/// order.
pub open spec fn default_keybinding_table() -> Seq<(Seq<char>, Seq<char>, Seq<char>)> {
    Seq::new(
        keybinding_ids().len(),
        |i: int| (keybinding_ids()[i], keybinding_labels()[i], keybinding_defaults()[i]),
    )
}

pub open spec fn str_views(v: Seq<&'static str>) -> Seq<Seq<char>> {
    v.map_values(|s: &'static str| s@)
}

fn ids() -> (v: Vec<&'static str>)
    ensures
        str_views(v@) == keybinding_ids(),
{
    let mut v: Vec<&'static str> = Vec::new();
    v.push("editor.commandPalette");
    v.push("editor.find");
    v.push("editor.findReplace");
    v.push("editor.findNext");
    v.push("editor.findPrev");
    v.push("editor.zoomIn");
    v.push("editor.zoomOut");
    v.push("editor.newTab");
    v.push("editor.closeTab");
    v.push("editor.cycleTabNext");
    v.push("editor.cycleTabPrev");
    v.push("editor.save");
    v.push("editor.open");
    v.push("editor.export");
    v.push("editor.transliterate");
    v.push("editor.toggleInputMode");
    assert(str_views(v@) =~= keybinding_ids());
    v
}

fn labels() -> (v: Vec<&'static str>)
    ensures
        str_views(v@) == keybinding_labels(),
{
    let mut v: Vec<&'static str> = Vec::new();
    v.push("Command Palette");
    v.push("Find");
    v.push("Find and Replace");
    v.push("Find Next");
    v.push("Find Previous");
    v.push("Zoom In");
    v.push("Zoom Out");
    v.push("New Tab");
    v.push("Close Tab");
    v.push("Next Tab");
    v.push("Previous Tab");
    v.push("Save");
    v.push("Open File");
    v.push("Export as PNG");
    v.push("Transliterate");
    v.push("Toggle Input Mode");
    assert(str_views(v@) =~= keybinding_labels());
    v
}

fn defaults() -> (v: Vec<&'static str>)
    ensures
        str_views(v@) == keybinding_defaults(),
{
    let mut v: Vec<&'static str> = Vec::new();
    v.push("Ctrl+Shift+P");
    v.push("Ctrl+F");
    v.push("Ctrl+H");
    v.push("F3");
    v.push("Shift+F3");
    v.push("Ctrl+=");
    v.push("Ctrl+-");
    v.push("Ctrl+N");
    v.push("Ctrl+W");
    v.push("Ctrl+Tab");
    v.push("Ctrl+Shift+Tab");
    v.push("Ctrl+S");
    v.push("Ctrl+O");
    v.push("Ctrl+E");
    v.push("Ctrl+T");
    v.push("Ctrl+Alt+I");
    assert(str_views(v@) =~= keybinding_defaults());
    v
}

/// Every rebindable action with its default combo, listed as the
/// settings screen presents them.
pub fn default_keybindings() -> (r: Vec<KeyBinding>)
    ensures
        r@.len() == default_keybinding_table().len(),
        forall|i: int|
            0 <= i < r@.len() ==> ((#[trigger] r@[i]).id@, r@[i].label@, r@[i].default@)
                == default_keybinding_table()[i],
{
    let id_list = ids();
    let label_list = labels();
    let combo_list = defaults();
    let mut out: Vec<KeyBinding> = Vec::new();
    let mut k: usize = 0;
    assert(keybinding_ids().len() == 16 && keybinding_labels().len() == 16
        && keybinding_defaults().len() == 16);
    assert(str_views(id_list@).len() == id_list@.len());
    assert(str_views(label_list@).len() == label_list@.len());
    assert(str_views(combo_list@).len() == combo_list@.len());
    while k < id_list.len()
        invariant
            id_list@.len() == 16,
            label_list@.len() == 16,
            combo_list@.len() == 16,
            keybinding_ids().len() == 16,
            str_views(id_list@) == keybinding_ids(),
            str_views(label_list@) == keybinding_labels(),
            str_views(combo_list@) == keybinding_defaults(),
            k <= id_list@.len(),
            out@.len() == k,
            forall|i: int|
                0 <= i < k ==> ((#[trigger] out@[i]).id@, out@[i].label@, out@[i].default@)
                    == default_keybinding_table()[i],
        decreases id_list@.len() - k,
    {
        assert(id_list@[k as int]@ == keybinding_ids()[k as int]);
        assert(label_list@[k as int]@ == keybinding_labels()[k as int]);
        assert(combo_list@[k as int]@ == keybinding_defaults()[k as int]);
        out.push(KeyBinding { id: id_list[k], label: label_list[k], default: combo_list[k] });
        k += 1;
    }
    out
}

} // verus!
