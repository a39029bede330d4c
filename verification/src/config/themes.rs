//! Color themes that ship with the editor.
//!
//! A theme is a named set of colors and nothing else: picking one never
//! touches fonts, so the layout of the text stays put and only its
//! colors change. The behavior settings remember the id of the theme in
//! use (or `"custom"`) for the host's theme picker; painting reads only
//! the colors.

use vstd::prelude::*;
use crate::config::settings::{default_appearance, AppearanceSettings, Rgba};
use crate::text::str_eq;

verus! {

pub struct Theme {
    /// Identifier stored in the settings, e.g. `"default-dark"`.
    pub id: &'static str,
    /// Name shown in the theme picker.
    pub name: &'static str,
    /// The colors this theme applies.
    pub appearance: AppearanceSettings,
}

pub open spec fn opaque(r: u8, g: u8, b: u8) -> Rgba {
    Rgba { r, g, b, a: 255 }
}

/// Each shipped theme as `(id, name, colors)`, in the picker's order.
/// The first, `"default-light"`, uses exactly the default colors, so
/// choosing it is the same as never having chosen a theme.
pub open spec fn theme_table() -> Seq<(Seq<char>, Seq<char>, AppearanceSettings)> {
    seq![
        ("default-light"@, "Default Light"@, default_appearance()),
        ("default-dark"@, "Default Dark"@, AppearanceSettings {
            text_color: opaque(0xd4, 0xd4, 0xd4),
            background_color: opaque(0x1e, 0x1e, 0x1e),
            cursor_color: opaque(0xd4, 0xd4, 0xd4),
            selection_color: Rgba { r: 38, g: 79, b: 120, a: 180 },
            gutter_background: opaque(0x25, 0x25, 0x26),
            line_number_color: opaque(0x85, 0x85, 0x85),
        }),
        ("high-contrast"@, "High Contrast"@, AppearanceSettings {
            text_color: opaque(0xff, 0xff, 0xff),
            background_color: opaque(0x00, 0x00, 0x00),
            cursor_color: opaque(0xff, 0xff, 0x00),
            selection_color: Rgba { r: 255, g: 255, b: 0, a: 130 },
            gutter_background: opaque(0x00, 0x00, 0x00),
            line_number_color: opaque(0xff, 0xff, 0xff),
        }),
        ("solarized-dark"@, "Solarized Dark"@, AppearanceSettings {
            text_color: opaque(0x83, 0x94, 0x96),
            background_color: opaque(0x00, 0x2b, 0x36),
            cursor_color: opaque(0x93, 0xa1, 0xa1),
            selection_color: Rgba { r: 0x07, g: 0x36, b: 0x42, a: 220 },
            gutter_background: opaque(0x07, 0x36, 0x42),
            line_number_color: opaque(0x58, 0x6e, 0x75),
        }),
        ("mongolian-parchment"@, "Mongolian Parchment"@, AppearanceSettings {
            text_color: opaque(0x4a, 0x33, 0x1e),
            background_color: opaque(0xf1, 0xe4, 0xc6),
            cursor_color: opaque(0x7a, 0x1f, 0x1f),
            selection_color: Rgba { r: 0xc9, g: 0xa8, b: 0x66, a: 150 },
            gutter_background: opaque(0xe3, 0xd2, 0xa8),
            line_number_color: opaque(0x8a, 0x6d, 0x45),
        })
    ]
}

pub open spec fn theme_view(t: Theme) -> (Seq<char>, Seq<char>, AppearanceSettings) {
    (t.id@, t.name@, t.appearance)
}

/// All shipped themes, in the picker's order.
pub fn built_in_themes() -> (r: Vec<Theme>)
    ensures
        r@.len() == theme_table().len(),
        forall|i: int| 0 <= i < r@.len() ==> theme_view(#[trigger] r@[i]) == theme_table()[i],
{
    let mut v: Vec<Theme> = Vec::new();
    v.push(Theme { id: "default-light", name: "Default Light", appearance: AppearanceSettings::default() });
    v.push(Theme {
        id: "default-dark",
        name: "Default Dark",
        appearance: AppearanceSettings {
            text_color: Rgba::rgb(0xd4, 0xd4, 0xd4),
            background_color: Rgba::rgb(0x1e, 0x1e, 0x1e),
            cursor_color: Rgba::rgb(0xd4, 0xd4, 0xd4),
            selection_color: Rgba::rgba(38, 79, 120, 180),
            gutter_background: Rgba::rgb(0x25, 0x25, 0x26),
            line_number_color: Rgba::rgb(0x85, 0x85, 0x85),
        },
    });
    v.push(Theme {
        id: "high-contrast",
        name: "High Contrast",
        appearance: AppearanceSettings {
            text_color: Rgba::rgb(0xff, 0xff, 0xff),
            background_color: Rgba::rgb(0x00, 0x00, 0x00),
            cursor_color: Rgba::rgb(0xff, 0xff, 0x00),
            selection_color: Rgba::rgba(255, 255, 0, 130),
            gutter_background: Rgba::rgb(0x00, 0x00, 0x00),
            line_number_color: Rgba::rgb(0xff, 0xff, 0xff),
        },
    });
    v.push(Theme {
        id: "solarized-dark",
        name: "Solarized Dark",
        appearance: AppearanceSettings {
            text_color: Rgba::rgb(0x83, 0x94, 0x96),
            background_color: Rgba::rgb(0x00, 0x2b, 0x36),
            cursor_color: Rgba::rgb(0x93, 0xa1, 0xa1),
            selection_color: Rgba::rgba(0x07, 0x36, 0x42, 220),
            gutter_background: Rgba::rgb(0x07, 0x36, 0x42),
            line_number_color: Rgba::rgb(0x58, 0x6e, 0x75),
        },
    });
    v.push(Theme {
        id: "mongolian-parchment",
        name: "Mongolian Parchment",
        appearance: AppearanceSettings {
            text_color: Rgba::rgb(0x4a, 0x33, 0x1e),
            background_color: Rgba::rgb(0xf1, 0xe4, 0xc6),
            cursor_color: Rgba::rgb(0x7a, 0x1f, 0x1f),
            selection_color: Rgba::rgba(0xc9, 0xa8, 0x66, 150),
            gutter_background: Rgba::rgb(0xe3, 0xd2, 0xa8),
            line_number_color: Rgba::rgb(0x8a, 0x6d, 0x45),
        },
    });
    v
}

/// The built-in theme with id `id`, if there is one.
pub fn theme_by_id(id: &str) -> (r: Option<Theme>)
    ensures
        r is Some <==> exists|i: int| 0 <= i < theme_table().len() && (#[trigger] theme_table()[i]).0 == id@,
        r matches Some(t) ==> t.id@ == id@ && exists|i: int|
            0 <= i < theme_table().len() && (#[trigger] theme_table()[i]) == theme_view(t),
{
    let mut themes = built_in_themes();
    let mut i: usize = 0;
    while i < themes.len()
        invariant
            themes@.len() == theme_table().len(),
            forall|k: int| 0 <= k < themes@.len() ==> theme_view(#[trigger] themes@[k]) == theme_table()[k],
            i <= themes@.len(),
            forall|k: int| 0 <= k < i ==> (#[trigger] theme_table()[k]).0 != id@,
        decreases themes@.len() - i,
    {
        if str_eq(themes[i].id, id) {
            assert(theme_view(themes@[i as int]) == theme_table()[i as int]);
            let t = themes.remove(i);
            return Some(t);
        }
        assert(theme_view(themes@[i as int]) == theme_table()[i as int]);
        i += 1;
    }
    None
}

/// Two sequences that differ at a position shared by both differ.
proof fn lemma_differ_at(a: Seq<char>, b: Seq<char>, k: int)
    requires
        0 <= k < a.len(),
        k < b.len(),
        a[k] != b[k],
    ensures
        a != b,
{
}

/// No two built-in themes share an id.
pub proof fn lemma_theme_ids_are_distinct()
    ensures
        forall|i: int, j: int|
            0 <= i < j < theme_table().len() ==> (#[trigger] theme_table()[i]).0 != (
            #[trigger] theme_table()[j]).0,
{
    reveal_strlit("default-light");
    reveal_strlit("default-dark");
    reveal_strlit("high-contrast");
    reveal_strlit("solarized-dark");
    reveal_strlit("mongolian-parchment");
    let t = theme_table();
    assert forall|i: int, j: int| 0 <= i < j < t.len() implies (#[trigger] t[i]).0 != (#[trigger] t[j]).0 by {
        if i == 0 && j == 1 {
            lemma_differ_at(t[i].0, t[j].0, 8);
        } else {
            assert(0 <= i <= 4 && 1 <= j <= 4);
            lemma_differ_at(t[i].0, t[j].0, 0);
        }
    }
}

/// Looking up a listed theme's id gives back exactly that theme.
pub proof fn lemma_theme_lookup_is_exact(i: int, t: (Seq<char>, Seq<char>, AppearanceSettings))
    requires
        0 <= i < theme_table().len(),
        t.0 == theme_table()[i].0,
        exists|j: int| 0 <= j < theme_table().len() && (#[trigger] theme_table()[j]) == t,
    ensures
        t == theme_table()[i],
{
    lemma_theme_ids_are_distinct();
    let j = choose|j: int| 0 <= j < theme_table().len() && (#[trigger] theme_table()[j]) == t;
    if j != i {
        assert(theme_table()[i].0 != theme_table()[j].0);
    }
}

} // verus!
