use uns_editor::editor_core::format_control::{
    backspace_plan, delete_plan, is_format_after_visible, is_format_before_visible,
    is_format_control, DeletePlan,
};

fn chars_of(s: &str) -> Vec<char> {
    s.chars().collect()
}

#[test]
fn backspace_at_start_of_line_is_a_plain_backspace() {
    let chars = chars_of("hello");
    assert_eq!(backspace_plan(&chars, 0), DeletePlan::backspace(1));
}

#[test]
fn backspace_out_of_bounds_falls_back_to_plain_backspace() {
    let chars = chars_of("hi");
    assert_eq!(backspace_plan(&chars, 99), DeletePlan::backspace(1));
}

#[test]
fn backspace_after_plain_character_deletes_just_it() {
    let chars = chars_of("hello");
    assert_eq!(backspace_plan(&chars, 4), DeletePlan::backspace(1));
}

#[test]
fn backspace_after_single_format_after_control_deletes_both() {
    let chars = chars_of("a\u{180B}");
    assert_eq!(backspace_plan(&chars, 2), DeletePlan::backspace(2));
}

#[test]
fn backspace_after_stacked_format_after_controls_deletes_the_whole_run() {
    let chars = chars_of("a\u{180B}\u{180C}\u{180D}");
    assert_eq!(backspace_plan(&chars, 4), DeletePlan::backspace(4));
}

#[test]
fn backspace_format_after_with_no_preceding_visible_char_deletes_only_the_control() {
    let chars = chars_of("\u{180B}x");
    assert_eq!(backspace_plan(&chars, 1), DeletePlan::backspace(1));
}

#[test]
fn backspace_after_visible_preceded_by_format_before_run_deletes_both() {
    let chars = chars_of("\u{202F}a");
    assert_eq!(backspace_plan(&chars, 2), DeletePlan::backspace(2));
}

#[test]
fn backspace_between_format_before_run_and_following_visible_char() {
    let chars = chars_of("\u{202F}a");
    assert_eq!(backspace_plan(&chars, 1), DeletePlan { backspaces: 1, deletes: 1 });
}

#[test]
fn backspace_format_before_run_at_end_of_line_deletes_only_the_control() {
    let chars = chars_of("x\u{202F}");
    assert_eq!(backspace_plan(&chars, 2), DeletePlan::backspace(1));
}

#[test]
fn delete_at_end_of_line_is_a_plain_delete() {
    let chars = chars_of("hello");
    assert_eq!(delete_plan(&chars, 5), DeletePlan::delete(1));
}

#[test]
fn delete_plain_character_deletes_just_it() {
    let chars = chars_of("hello");
    assert_eq!(delete_plan(&chars, 0), DeletePlan::delete(1));
}

#[test]
fn delete_visible_followed_by_format_after_run_deletes_both() {
    let chars = chars_of("a\u{180B}\u{180C}");
    assert_eq!(delete_plan(&chars, 0), DeletePlan::delete(3));
}

#[test]
fn delete_format_before_run_followed_by_visible_deletes_both() {
    let chars = chars_of("\u{202F}a");
    assert_eq!(delete_plan(&chars, 0), DeletePlan::delete(2));
}

#[test]
fn delete_format_before_run_at_end_of_line_deletes_only_the_control() {
    let chars = chars_of("x\u{202F}");
    assert_eq!(delete_plan(&chars, 1), DeletePlan::delete(1));
}

#[test]
fn delete_between_visible_and_following_format_after_run() {
    let chars = chars_of("a\u{180B}");
    assert_eq!(delete_plan(&chars, 1), DeletePlan { backspaces: 1, deletes: 1 });
}

#[test]
fn delete_format_after_run_with_no_preceding_visible_char() {
    let chars = chars_of("\u{180B}x");
    assert_eq!(delete_plan(&chars, 0), DeletePlan::delete(1));
}

#[test]
fn backspace_and_delete_agree_on_a_visible_format_after_group() {
    let chars = chars_of("a\u{180B}");
    assert_eq!(backspace_plan(&chars, 2), DeletePlan::backspace(2));
    assert_eq!(delete_plan(&chars, 0), DeletePlan::delete(2));
}

#[test]
fn backspace_and_delete_agree_on_a_format_before_visible_group() {
    let chars = chars_of("\u{202F}a");
    assert_eq!(backspace_plan(&chars, 2), DeletePlan::backspace(2));
    assert_eq!(delete_plan(&chars, 0), DeletePlan::delete(2));
}

#[test]
fn every_format_control_has_exactly_one_attachment_side() {
    for c in ['\u{180B}', '\u{180C}', '\u{180D}', '\u{180E}', '\u{180F}', '\u{202F}'] {
        assert!(is_format_control(c));
        assert!(is_format_after_visible(c) != is_format_before_visible(c));
    }
    assert!(!is_format_control('a'));
    assert!(!is_format_after_visible('a'));
    assert!(!is_format_before_visible('a'));
}

#[test]
fn backspace_over_a_format_before_run_between_two_letters_takes_the_next_letter() {
    // "x" + U+202F + U+180E + "y", cursor just before "y": both
    // format-before controls and "y" form one unit.
    let chars = chars_of("x\u{202F}\u{180E}y");
    assert_eq!(backspace_plan(&chars, 3), DeletePlan { backspaces: 2, deletes: 1 });
}
