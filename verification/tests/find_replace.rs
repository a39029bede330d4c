use uns_editor::plugins::find_replace::{FindReplacePlugin, FindReplaceState, MatchRange};

fn lines_of(text: &str) -> Vec<String> {
    text.split('\n').map(|l| l.to_string()).collect()
}

#[test]
fn plain_search_is_case_insensitive_by_default() {
    let lines = lines_of("Hello world\nhello again");
    let mut state = FindReplaceState::new();
    state.query = "hello".to_string();
    state.search(&lines);
    assert_eq!(state.matches.len(), 2);
    assert_eq!(state.current, Some(0));
}

#[test]
fn case_sensitive_narrows_matches() {
    let lines = lines_of("Hello world\nhello again");
    let mut state = FindReplaceState::new();
    state.query = "hello".to_string();
    state.case_sensitive = true;
    state.search(&lines);
    assert_eq!(state.matches.len(), 1);
    assert_eq!(state.matches[0].line, 1);
}

#[test]
fn whole_word_excludes_partial_matches() {
    let lines = lines_of("cat catalog concatenate");
    let mut state = FindReplaceState::new();
    state.query = "cat".to_string();
    state.whole_word = true;
    state.search(&lines);
    assert_eq!(state.matches.len(), 1);
}

#[test]
fn regex_mode_matches_pattern() {
    let lines = lines_of("foo1 foo22 bar3");
    let mut state = FindReplaceState::new();
    state.query = r"foo\d+".to_string();
    state.use_regex = true;
    state.search(&lines);
    assert_eq!(state.matches.len(), 2);
}

#[test]
fn invalid_regex_reports_error_without_panicking() {
    let lines = lines_of("anything");
    let mut state = FindReplaceState::new();
    state.query = "(unclosed".to_string();
    state.use_regex = true;
    state.search(&lines);
    assert!(state.matches.is_empty());
    assert!(state.error.is_some());
}

#[test]
fn advance_wraps_around() {
    let mut state = FindReplaceState::new();
    state.matches = vec![
        MatchRange { line: 0, start: 0, end: 1 },
        MatchRange { line: 0, start: 2, end: 3 },
    ];
    state.current = Some(1);
    assert_eq!(state.advance(true), Some(0));
    assert_eq!(state.advance(false), Some(1));
}

#[test]
fn plain_text_query_treats_regex_characters_literally() {
    let lines = lines_of("abc a.c");
    let mut state = FindReplaceState::new();
    state.query = "a.c".to_string();
    state.search(&lines);
    assert_eq!(state.matches.len(), 1);
    assert_eq!(state.matches[0].start, 4);
    assert_eq!(state.matches[0].end, 7);
}

#[test]
fn matches_carry_byte_offsets_in_document_order() {
    let lines = lines_of("ааб аб\nxаб");
    let mut state = FindReplaceState::new();
    state.query = "аб".to_string();
    state.search(&lines);
    let spans: Vec<(usize, usize, usize)> =
        state.matches.iter().map(|m| (m.line, m.start, m.end)).collect();
    assert_eq!(spans, vec![(0, 2, 6), (0, 7, 11), (1, 1, 5)]);
}

#[test]
fn zero_width_matches_are_skipped() {
    let lines = lines_of("baab");
    let mut state = FindReplaceState::new();
    state.query = "a*".to_string();
    state.use_regex = true;
    state.search(&lines);
    assert_eq!(state.matches.len(), 1);
    assert_eq!((state.matches[0].start, state.matches[0].end), (1, 3));
}

#[test]
fn empty_query_clears_matches_and_error() {
    let lines = lines_of("anything");
    let mut state = FindReplaceState::new();
    state.error = Some("old".to_string());
    state.matches = vec![MatchRange { line: 0, start: 0, end: 1 }];
    state.search(&lines);
    assert!(state.matches.is_empty());
    assert!(state.error.is_none());
    assert_eq!(state.current, None);
}

#[test]
fn advance_without_matches_is_none_and_from_none_starts_at_an_end() {
    let mut state = FindReplaceState::new();
    assert_eq!(state.advance(true), None);
    state.matches = vec![
        MatchRange { line: 0, start: 0, end: 1 },
        MatchRange { line: 1, start: 0, end: 1 },
        MatchRange { line: 2, start: 0, end: 1 },
    ];
    assert_eq!(state.advance(false), Some(2));
    state.current = None;
    assert_eq!(state.advance(true), Some(0));
    assert_eq!(state.advance(false), Some(2));
    assert_eq!(state.advance(true), Some(0));
}

#[test]
fn select_from_picks_the_first_match_at_or_after_the_position() {
    let mut state = FindReplaceState::new();
    state.select_from(0, 0);
    assert_eq!(state.current, None);
    state.matches = vec![
        MatchRange { line: 0, start: 2, end: 4 },
        MatchRange { line: 1, start: 0, end: 2 },
        MatchRange { line: 1, start: 5, end: 7 },
    ];
    state.select_from(1, 3);
    assert_eq!(state.current, Some(2));
    state.select_from(0, 2);
    assert_eq!(state.current, Some(0));
    state.select_from(0, 3);
    assert_eq!(state.current, Some(1));
    state.select_from(4, 0);
    assert_eq!(state.current, Some(0));
}

#[test]
fn clear_keeps_the_options() {
    let mut state = FindReplaceState::new();
    state.query = "q".to_string();
    state.replacement = "r".to_string();
    state.case_sensitive = true;
    state.whole_word = true;
    state.matches = vec![MatchRange { line: 0, start: 0, end: 1 }];
    state.current = Some(0);
    state.clear();
    assert!(state.query.is_empty());
    assert!(state.replacement.is_empty());
    assert!(state.matches.is_empty());
    assert_eq!(state.current, None);
    assert!(state.case_sensitive);
    assert!(state.whole_word);
}

#[test]
fn ranges_and_cursor_range_follow_the_matches() {
    let mut state = FindReplaceState::new();
    state.matches = vec![
        MatchRange { line: 0, start: 0, end: 1 },
        MatchRange { line: 3, start: 2, end: 5 },
    ];
    state.current = Some(1);
    let (start, end) = state.cursor_range(1).expect("match 1");
    assert_eq!((start.line, start.index, end.line, end.index), (3, 2, 3, 5));
    assert!(state.cursor_range(2).is_none());
    let flags: Vec<bool> = state.ranges().into_iter().map(|r| r.2).collect();
    assert_eq!(flags, vec![false, true]);
}

#[test]
fn find_plugin_lists_its_commands() {
    let plugin = FindReplacePlugin;
    assert_eq!(plugin.id(), "core.findReplace");
    assert_eq!(plugin.name(), "Find & Replace");
    let ids: Vec<&str> = plugin.command_list().iter().map(|c| c.id).collect();
    assert_eq!(
        ids,
        vec![
            "editor.find.setQuery",
            "editor.find.next",
            "editor.find.prev",
            "editor.find.replaceCurrent",
            "editor.find.replaceAll",
            "editor.find.clear"
        ]
    );
    assert_eq!(plugin.command_list()[4].keybinding, None);
}

#[test]
fn ranges_put_each_cursor_pair_at_its_match() {
    let mut state = FindReplaceState::new();
    state.matches = vec![
        MatchRange { line: 0, start: 0, end: 1 },
        MatchRange { line: 3, start: 2, end: 5 },
    ];
    let ends: Vec<(usize, usize, usize, usize)> =
        state.ranges().into_iter().map(|(a, b, _)| (a.line, a.index, b.line, b.index)).collect();
    assert_eq!(ends, vec![(0, 0, 0, 1), (3, 2, 3, 5)]);
}

#[test]
fn going_once_round_returns_to_the_start() {
    let mut state = FindReplaceState::new();
    state.matches = (0..4).map(|i| MatchRange { line: i, start: 0, end: 1 }).collect();
    state.current = Some(2);
    for _ in 0..4 {
        state.advance(true);
    }
    assert_eq!(state.current, Some(2));
    for _ in 0..4 {
        state.advance(false);
    }
    assert_eq!(state.current, Some(2));
}
