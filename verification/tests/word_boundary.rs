use uns_editor::editor_core::word_boundary::{classify_script, current_word_bounds, Script};

fn chars_of(s: &str) -> Vec<char> {
    s.chars().collect()
}

#[test]
fn cursor_inside_a_plain_word_returns_its_full_bounds() {
    let chars = chars_of("hello world");
    assert_eq!(current_word_bounds(&chars, 3), Some((0, 5)));
}

#[test]
fn cursor_at_end_of_word_returns_its_bounds() {
    let chars = chars_of("hello world");
    assert_eq!(current_word_bounds(&chars, 5), Some((0, 5)));
}

#[test]
fn cursor_at_start_of_second_word_returns_its_bounds() {
    let chars = chars_of("hello world");
    assert_eq!(current_word_bounds(&chars, 6), Some((6, 11)));
}

#[test]
fn cursor_between_two_spaces_returns_none() {
    let chars = chars_of("a  b");
    assert_eq!(current_word_bounds(&chars, 2), None);
}

#[test]
fn empty_line_returns_none() {
    let chars: Vec<char> = vec![];
    assert_eq!(current_word_bounds(&chars, 0), None);
}

#[test]
fn digits_are_boundaries_not_word_characters() {
    let chars = chars_of("a1b");
    assert_eq!(current_word_bounds(&chars, 2), Some((2, 3)));
    assert_eq!(current_word_bounds(&chars, 1), Some((0, 1)));
}

#[test]
fn format_control_characters_are_part_of_the_word_not_boundaries() {
    let chars = chars_of("a\u{180B}b");
    assert_eq!(current_word_bounds(&chars, 3), Some((0, 3)));
    assert_eq!(current_word_bounds(&chars, 2), Some((0, 3)));
}

#[test]
fn cyrillic_word_is_detected_like_any_other_alphabetic_word() {
    let chars = chars_of("привет мир");
    assert_eq!(current_word_bounds(&chars, 3), Some((0, 6)));
}

#[test]
fn mongolian_bichig_word_is_detected_like_any_other_alphabetic_word() {
    let chars = chars_of("\u{1820}\u{1821}\u{1822}");
    assert_eq!(current_word_bounds(&chars, 2), Some((0, 3)));
}

#[test]
fn classify_script_identifies_cyrillic() {
    let word = chars_of("привет");
    assert_eq!(classify_script(&word), Some(Script::Cyrillic));
}

#[test]
fn classify_script_identifies_mongolian() {
    let word = chars_of("\u{1820}\u{1821}");
    assert_eq!(classify_script(&word), Some(Script::Mongolian));
}

#[test]
fn classify_script_skips_leading_format_control_characters() {
    let word = chars_of("\u{202F}\u{0430}");
    assert_eq!(classify_script(&word), Some(Script::Cyrillic));
}

#[test]
fn classify_script_of_empty_or_all_format_control_word_is_none() {
    let word = chars_of("\u{180B}\u{180C}");
    assert_eq!(classify_script(&word), None);
}

#[test]
fn classify_script_identifies_other_scripts_as_other() {
    let word = chars_of("hello");
    assert_eq!(classify_script(&word), Some(Script::Other));
}

#[test]
fn cursor_past_the_end_of_the_line_counts_as_its_end() {
    let chars = chars_of("hi there");
    assert_eq!(current_word_bounds(&chars, 100), Some((3, 8)));
}
