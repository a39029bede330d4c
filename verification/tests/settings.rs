use uns_editor::config::color_serde::{deserialize, serialize};
use uns_editor::config::settings::{
    default_theme_id, default_word_wrap, AppearanceSettings, EditorBehaviorSettings, Rgba,
};

#[test]
fn selection_color_alpha_survives_a_json_round_trip() {
    let original = AppearanceSettings::default();
    assert_eq!(original.selection_color.a, 128);

    let hex = serialize(&original.selection_color);
    let restored = deserialize(&hex).expect("deserialize");
    assert_eq!(restored.a, 128);
    assert_eq!(restored, original.selection_color);
}

#[test]
fn opaque_colors_serialize_as_six_hex_digits() {
    let appearance = AppearanceSettings::default();
    assert_eq!(serialize(&appearance.text_color), "#0d0d0d");
}

#[test]
fn six_digit_hex_still_deserializes_as_fully_opaque() {
    let color = deserialize("#112233").expect("deserialize");
    assert_eq!(color, Rgba::rgb(0x11, 0x22, 0x33));
    assert_eq!(color.a, 255);
}

#[test]
fn translucent_colors_serialize_with_an_alpha_pair() {
    assert_eq!(serialize(&Rgba::rgba(80, 120, 200, 128)), "#5078c880");
    assert_eq!(serialize(&Rgba::rgba(0xab, 0x01, 0xff, 0)), "#ab01ff00");
}

#[test]
fn every_default_color_round_trips() {
    let a = AppearanceSettings::default();
    for c in [
        a.text_color,
        a.background_color,
        a.cursor_color,
        a.selection_color,
        a.gutter_background,
        a.line_number_color,
    ] {
        assert_eq!(deserialize(&serialize(&c)), Ok(c));
    }
}

#[test]
fn reading_accepts_upper_case_plus_signs_and_extra_hashes() {
    assert_eq!(deserialize("##AABBCC"), Ok(Rgba::rgb(0xaa, 0xbb, 0xcc)));
    assert_eq!(deserialize("+f+f+fff"), Ok(Rgba::rgba(15, 15, 15, 255)));
    assert_eq!(deserialize("0102030405"), Ok(Rgba::rgba(1, 2, 3, 4)));
}

#[test]
fn short_or_malformed_hex_is_rejected_with_a_message() {
    assert_eq!(
        deserialize("#abc"),
        Err("invalid color hex 'abc': expected 6 or 8 hex digits".to_string())
    );
    assert_eq!(deserialize("#gg0000"), Err("invalid digit found in string".to_string()));
    assert_eq!(deserialize("#0000zz"), Err("invalid digit found in string".to_string()));
    assert_eq!(deserialize("#000000-1"), Err("invalid digit found in string".to_string()));
}

#[test]
fn behavior_defaults() {
    let b = EditorBehaviorSettings::default();
    assert_eq!(b.orientation, "vertical");
    assert!(!b.show_line_numbers);
    assert!(b.word_wrap);
    assert_eq!(b.theme_id, "default-light");
    assert!(default_word_wrap());
    assert_eq!(default_theme_id(), "default-light");
}
