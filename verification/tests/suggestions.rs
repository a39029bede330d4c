use cosmic_text::Cursor;
use uns_editor::dictionary::lookup::Dictionary;
use uns_editor::editor_core::suggestions::{word_suggestions, SuggestionState};

#[test]
fn clear_resets_everything() {
    let mut state = SuggestionState::new();
    state.suggestions = vec!["x".into()];
    state.word_start = Some(Cursor::new(0, 0));
    state.word_end = Some(Cursor::new(0, 1));
    state.suffix_start = Some(Cursor::new(0, 1));
    state.clear();
    assert!(state.suggestions.is_empty());
    assert!(state.word_start.is_none());
    assert!(state.word_end.is_none());
    assert!(state.suffix_start.is_none());
}

fn dictionary() -> Dictionary {
    Dictionary::from_tsv("мон\t\u{1825}\u{1826}\nмонгол\t\u{1825}\u{1826}\u{1827}\nм\t\u{1820}\n")
}

#[test]
fn word_at_the_cursor_gets_suggestions_with_its_byte_range() {
    let dict = dictionary();
    // "x мо": the cursor at the end (byte 6) touches "мо" (bytes 2..6).
    let ws = word_suggestions(&dict, "x мо", 6).expect("suggestions");
    assert_eq!((ws.start_byte, ws.end_byte), (2, 6));
    assert_eq!(
        ws.suggestions,
        vec!["\u{1825}\u{1826}".to_string(), "\u{1825}\u{1826}\u{1827}".to_string()]
    );
    // A cursor byte past the end counts as the end of the line.
    assert!(word_suggestions(&dict, "x мо", 60).is_some());
}

#[test]
fn short_latin_or_unknown_words_get_nothing() {
    let dict = dictionary();
    assert!(word_suggestions(&dict, "м", 2).is_none());
    assert!(word_suggestions(&dict, "hello", 5).is_none());
    assert!(word_suggestions(&dict, "мы ", 5).is_none());
    assert!(word_suggestions(&dict, "ыы", 4).is_none());
}
