use uns_editor::config::color_serde::serialize;
use uns_editor::config::settings::AppearanceSettings;
use uns_editor::config::themes::{built_in_themes, theme_by_id};

#[test]
fn default_light_matches_appearance_default() {
    let themes = built_in_themes();
    let default_light = themes.iter().find(|t| t.id == "default-light").unwrap();
    let default_appearance = AppearanceSettings::default();
    assert_eq!(default_light.appearance.text_color, default_appearance.text_color);
    assert_eq!(default_light.appearance.background_color, default_appearance.background_color);
}

#[test]
fn theme_ids_are_unique() {
    let themes = built_in_themes();
    let mut ids: Vec<&str> = themes.iter().map(|t| t.id).collect();
    ids.sort_unstable();
    ids.dedup();
    assert_eq!(ids.len(), themes.len());
}

#[test]
fn theme_by_id_finds_known_theme_and_rejects_unknown() {
    assert!(theme_by_id("high-contrast").is_some());
    assert!(theme_by_id("nonexistent").is_none());
}

#[test]
fn themes_serializes_to_the_shape_the_js_settings_modal_expects() {
    let themes = built_in_themes();
    assert_eq!(themes.len(), 5);
    for theme in &themes {
        assert!(!theme.id.is_empty());
        assert!(!theme.name.is_empty());
        let a = &theme.appearance;
        for color in [
            a.text_color,
            a.background_color,
            a.cursor_color,
            a.selection_color,
            a.gutter_background,
            a.line_number_color,
        ] {
            let hex = serialize(&color);
            assert!(
                hex.starts_with('#') && (hex.len() == 7 || hex.len() == 9),
                "unexpected color hex format: {hex}"
            );
        }
    }
}

#[test]
fn theme_by_id_returns_the_listed_theme() {
    let t = theme_by_id("solarized-dark").expect("listed");
    assert_eq!(t.id, "solarized-dark");
    assert_eq!(t.name, "Solarized Dark");
    assert_eq!(serialize(&t.appearance.selection_color), "#073642dc");
    assert_eq!(theme_by_id("default-light").unwrap().appearance, AppearanceSettings::default());
}
