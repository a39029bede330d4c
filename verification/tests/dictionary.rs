use std::collections::HashSet;
use uns_editor::dictionary::lookup::{Dictionary, SUGGESTION_LIMIT};
use uns_editor::editor_core::word_boundary::Script;

fn fixture() -> Dictionary {
    Dictionary::from_tsv(
        "# header comment\n\
         тест\t\u{1820}\u{1821}\n\
         тест\t\u{1820}\u{1822}\n\
         тестов\t\u{1820}\u{1821}\u{1823}\n\
         те\t\u{1820}\n\
         тест фраза\t\u{1820}\u{1821}\u{1824}\n\
         мон\t\u{1825}\u{180B}\u{1826}\n\
         монгол\t\u{1825}\u{1826}\u{1827}\n",
    )
}

#[test]
fn lookup_is_unaffected_by_index_building_and_still_sees_phrases() {
    let dict = fixture();
    assert_eq!(dict.lookup("тест").map(|v| v.len()), Some(2));
    assert!(dict.lookup("тест фраза").is_some());
}

#[test]
fn suggest_cyrillic_returns_mongolian_values_ranked_by_closeness() {
    let dict = fixture();
    let results = dict.suggest("тест", Script::Cyrillic);
    assert!(!results.is_empty());
    assert!(results.iter().all(|r| !r.contains(' ')));
    assert!(results.contains(&"\u{1820}\u{1821}".to_string()));
    assert!(results.contains(&"\u{1820}\u{1822}".to_string()));
}

#[test]
fn suggest_cyrillic_excludes_phrase_entries() {
    let dict = fixture();
    let results = dict.suggest("тест фра", Script::Cyrillic);
    assert!(results.is_empty());
}

#[test]
fn suggest_cyrillic_is_case_insensitive_and_prefix_based() {
    let dict = fixture();
    let results = dict.suggest("ТЕ", Script::Cyrillic);
    assert!(results.len() >= 3);
}

#[test]
fn suggest_mongolian_completes_using_the_bichig_column_as_a_word_list() {
    let dict = fixture();
    let results = dict.suggest("\u{1825}", Script::Mongolian);
    assert!(results.contains(&"\u{1825}\u{1826}\u{1827}".to_string()));
}

#[test]
fn suggest_mongolian_ignores_format_control_characters_when_matching() {
    let dict = fixture();
    let results = dict.suggest("\u{1825}\u{1826}", Script::Mongolian);
    assert!(results.contains(&"\u{1825}\u{180B}\u{1826}".to_string()));
}

#[test]
fn suggest_other_script_returns_empty() {
    let dict = fixture();
    assert!(dict.suggest("hello", Script::Other).is_empty());
}

#[test]
fn suggest_empty_prefix_returns_empty() {
    let dict = fixture();
    assert!(dict.suggest("   ", Script::Cyrillic).is_empty());
}

#[test]
fn suggest_deduplicates_identical_mongolian_values() {
    let dict = Dictionary::from_tsv(
        "дубль\t\u{1820}\u{1821}\n\
         дубльх\t\u{1820}\u{1821}\n",
    );
    let results = dict.suggest("дубль", Script::Cyrillic);
    let unique: HashSet<&String> = results.iter().collect();
    assert_eq!(results.len(), unique.len());
}

#[test]
fn suggest_caps_results_at_the_suggestion_limit() {
    let mut tsv = String::new();
    for i in 0..(SUGGESTION_LIMIT + 10) {
        tsv.push_str(&format!("слово{i}\t\u{1820}{i}\n"));
    }
    let dict = Dictionary::from_tsv(&tsv);
    let results = dict.suggest("слово", Script::Cyrillic);
    assert_eq!(results.len(), SUGGESTION_LIMIT);
}

#[test]
fn exact_key_matches_rank_first_then_shorter_keys() {
    let dict = fixture();
    let results = dict.suggest("те", Script::Cyrillic);
    assert_eq!(
        results,
        vec![
            "\u{1820}".to_string(),
            "\u{1820}\u{1821}".to_string(),
            "\u{1820}\u{1822}".to_string(),
            "\u{1820}\u{1821}\u{1823}".to_string()
        ]
    );
}

#[test]
fn lookup_trims_and_lowercases_the_key_and_counts_keys() {
    let dict = fixture();
    let values = dict.lookup("  ТЕСТ ").expect("key");
    assert_eq!(values, &["\u{1820}\u{1821}".to_string(), "\u{1820}\u{1822}".to_string()][..]);
    assert!(dict.lookup("нет").is_none());
    assert!(dict.lookup("   ").is_none());
    assert_eq!(dict.len(), 6);
}

#[test]
fn lines_without_a_tab_or_with_an_empty_column_are_skipped() {
    let dict = Dictionary::from_tsv("без табуляции\n\t\u{1820}\nслово\t  \nключ\t\u{1821}\r\n");
    assert_eq!(dict.len(), 1);
    assert_eq!(dict.lookup("ключ").map(|v| v.to_vec()), Some(vec!["\u{1821}".to_string()]));
}
