//! Editor settings that the editor's logic reads: colors and behavior.
//! Font metrics, which are floating point, live with the host.

use vstd::prelude::*;

verus! {

/// An RGBA color, one byte per channel.
#[derive(Clone, Copy, Debug, PartialEq, Eq, Structural)]
pub struct Rgba {
    pub r: u8,
    pub g: u8,
    pub b: u8,
    pub a: u8,
}

impl Rgba {
    /// A fully opaque color.
    pub fn rgb(r: u8, g: u8, b: u8) -> (c: Rgba)
        ensures
            c == (Rgba { r, g, b, a: 255 }),
    {
        Rgba { r, g, b, a: 255 }
    }

    pub fn rgba(r: u8, g: u8, b: u8, a: u8) -> (c: Rgba)
        ensures
            c == (Rgba { r, g, b, a }),
    {
        Rgba { r, g, b, a }
    }
}

/// The colors the editor paints with.
#[derive(Clone, Copy, Debug, PartialEq, Eq, Structural)]
pub struct AppearanceSettings {
    pub text_color: Rgba,
    pub background_color: Rgba,
    pub cursor_color: Rgba,
    pub selection_color: Rgba,
    pub gutter_background: Rgba,
    pub line_number_color: Rgba,
}

/// The default appearance: dark text on a light, paper-like surface,
/// with a translucent blue selection.
pub open spec fn default_appearance() -> AppearanceSettings {
    AppearanceSettings {
        text_color: Rgba { r: 0x0d, g: 0x0d, b: 0x0d, a: 255 },
        background_color: Rgba { r: 0xf5, g: 0xf5, b: 0xf5, a: 255 },
        cursor_color: Rgba { r: 0x0d, g: 0x0d, b: 0x0d, a: 255 },
        selection_color: Rgba { r: 80, g: 120, b: 200, a: 128 },
        gutter_background: Rgba { r: 37, g: 37, b: 38, a: 255 },
        line_number_color: Rgba { r: 133, g: 133, b: 133, a: 255 },
    }
}

impl Default for AppearanceSettings {
    fn default() -> (s: Self)
        ensures
            s == default_appearance(),
    {
        AppearanceSettings {
            text_color: Rgba::rgb(0x0d, 0x0d, 0x0d),
            background_color: Rgba::rgb(0xf5, 0xf5, 0xf5),
            cursor_color: Rgba::rgb(0x0d, 0x0d, 0x0d),
            selection_color: Rgba::rgba(80, 120, 200, 128),
            gutter_background: Rgba::rgb(37, 37, 38),
            line_number_color: Rgba::rgb(133, 133, 133),
        }
    }
}

/// How the editor behaves.
#[derive(Clone, Debug)]
pub struct EditorBehaviorSettings {
    /// `"vertical"` (traditional top-to-bottom columns) or
    /// `"horizontal"`.
    pub orientation: String,
    /// Show a line-number gutter: a left column in horizontal mode, a
    /// top strip of column numbers in vertical mode.
    pub show_line_numbers: bool,
    /// Wrap long lines to the visible width.
    pub word_wrap: bool,
    /// Id of the active built-in theme, or `"custom"` once a color was
    /// edited by hand. Informational only: `appearance` decides what is
    /// painted.
    pub theme_id: String,
}

/// Word wrap is on unless a saved setting says otherwise.
pub fn default_word_wrap() -> (r: bool)
    ensures
        r,
{
    true
}

/// The theme assumed when none was saved.
pub fn default_theme_id() -> (r: String)
    ensures
        r@ == "default-light"@,
{
    "default-light".to_owned()
}

impl Default for EditorBehaviorSettings {
    fn default() -> (s: Self)
        ensures
            s.orientation@ == "vertical"@,
            !s.show_line_numbers,
            s.word_wrap,
            s.theme_id@ == "default-light"@,
    {
        EditorBehaviorSettings {
            orientation: "vertical".to_owned(),
            show_line_numbers: false,
            word_wrap: default_word_wrap(),
            theme_id: default_theme_id(),
        }
    }
}

} // verus!
