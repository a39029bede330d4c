use uns_editor::editor_core::noun_suffixes::{
    classify_ending, classify_harmony, ending_matches, suggest_case_suffixes, EndingCondition,
    HarmonyClass, StemEnding,
};

fn forms_of(stem: &str) -> Vec<String> {
    suggest_case_suffixes(stem).into_iter().map(|suggestion| suggestion.form).collect()
}

#[test]
fn vowel_harmony_uses_typed_bichig_vowels() {
    assert_eq!(classify_harmony("ᠠᠬ\u{180e}ᠠ"), Some(HarmonyClass::Masculine));
    assert_eq!(classify_harmony("ᠡᠭᠴᠢ"), Some(HarmonyClass::Feminine));
    assert_eq!(classify_harmony("ᠴᠢᠷᠢᠭ"), Some(HarmonyClass::Feminine));
}

#[test]
fn known_stems_receive_the_expected_case_forms() {
    let forms = forms_of("ᠨᠣᠮ");
    assert!(forms.contains(&"ᠤᠨ".into()));
    assert!(forms.contains(&"ᠢ".into()));
    assert!(forms.contains(&"ᠳᠤ".into()));
    assert!(forms.contains(&"ᠳᠤᠷ".into()));
    assert!(forms.contains(&"ᠠᠴᠠ".into()));
    assert!(forms.contains(&"ᠲᠠᠢ".into()));
    assert!(forms.contains(&"ᠢᠶᠠᠷ".into()));
}

#[test]
fn feminine_vowel_final_stem_uses_feminine_forms() {
    let forms = forms_of("ᠡᠭᠴᠢ");
    assert!(forms.contains(&"ᠶᠢᠨ".into()));
    assert!(forms.contains(&"ᠶᠢ".into()));
    assert!(forms.contains(&"ᠳᠦ".into()));
    assert!(forms.contains(&"ᠡᠴᠡ".into()));
    assert!(forms.contains(&"ᠲᠡᠢ".into()));
    assert!(forms.contains(&"ᠪᠡᠷ".into()));
}

#[test]
fn hard_closed_stems_take_t_forms_for_dative_locative() {
    let forms = forms_of("ᠵᠢᠷᠤᠭ");
    assert!(forms.contains(&"ᠲᠤ".into()));
    assert!(forms.contains(&"ᠲᠤᠷ".into()));
    assert!(!forms.contains(&"ᠳᠤ".into()));
}

#[test]
fn stems_without_vowels_or_letters_get_no_suggestions() {
    assert_eq!(classify_harmony("ᠨᠮ"), None);
    assert!(suggest_case_suffixes("ᠨᠮ").is_empty());
    assert!(suggest_case_suffixes("").is_empty());
    assert_eq!(classify_ending("\u{180B}\u{202F}"), None);
}

#[test]
fn suggestions_come_one_per_case_in_case_order() {
    let cases: Vec<String> = suggest_case_suffixes("ᠨᠣᠮ").into_iter().map(|s| s.case).collect();
    assert_eq!(
        cases,
        vec![
            "genitive",
            "accusative",
            "dative",
            "locative",
            "ablative",
            "instrumental",
            "comitative",
            "directive"
        ]
    );
}

#[test]
fn stem_ending_ignores_trailing_format_controls() {
    assert_eq!(classify_ending("ᠨᠣᠮ\u{180B}"), Some(StemEnding::SoftClosed));
    assert_eq!(classify_ending("ᠬᠠᠨ"), Some(StemEnding::ConsonantNa));
    assert_eq!(classify_ending("ᠵᠢᠷᠤᠭ"), Some(StemEnding::HardClosed));
    assert_eq!(classify_ending("ᠡᠭᠴᠢ"), Some(StemEnding::VowelOrDiphthong));
    assert_eq!(classify_ending("ᠬᠠᠵ"), Some(StemEnding::ConsonantOther));
}

#[test]
fn genitive_after_na_drops_the_n() {
    let forms = forms_of("ᠬᠠᠨ");
    assert!(forms.contains(&"ᠤ".into()));
    assert!(!forms.contains(&"ᠤᠨ".into()));
    assert!(ending_matches(EndingCondition::Consonant, StemEnding::ConsonantNa));
    assert!(!ending_matches(EndingCondition::ConsonantOther, StemEnding::ConsonantNa));
    assert!(ending_matches(EndingCondition::VowelOrSoftClosed, StemEnding::ConsonantNa));
}
