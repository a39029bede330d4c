//! Suggestions for the word being typed: what to offer, and what the
//! editor remembers about the offer.
//!
//! The editor keeps where the word is and the candidates; the host's
//! popup keeps track of which one is highlighted and hands back the
//! chosen text itself.

use vstd::prelude::*;
use crate::dictionary::lookup::{spec_suggest, Dictionary};
use crate::editor_core::word_boundary::{
    classify_script, current_word_bounds, first_alphabetic, is_word_around,
    lemma_word_around_unique, spec_classify_char, spec_word_bounds, Script,
};
use crate::text::{
    byte_len, byte_offset_of, char_index_at, char_index_of_byte, chars_of, is_char_start,
    string_from_range, views,
};

verus! {

pub struct SuggestionState {
    /// Where the word on offer begins: the text an accepted suggestion
    /// replaces starts here.
    pub word_start: Option<cosmic_text::Cursor>,
    /// Where that word ends.
    pub word_end: Option<cosmic_text::Cursor>,
    /// Where the case-suffix part of the word begins, for forms that
    /// replace only the suffix.
    pub suffix_start: Option<cosmic_text::Cursor>,
    /// The candidates on offer, best first.
    pub suggestions: Vec<String>,
}

impl SuggestionState {
    /// Nothing on offer.
    pub fn new() -> (s: Self)
        ensures
            s.word_start is None,
            s.word_end is None,
            s.suffix_start is None,
            s.suggestions@.len() == 0,
    {
        SuggestionState { word_start: None, word_end: None, suffix_start: None, suggestions: Vec::new() }
    }

    /// Forget the word and its suggestions.
    pub fn clear(&mut self)
        ensures
            final(self).word_start is None,
            final(self).word_end is None,
            final(self).suffix_start is None,
            final(self).suggestions@.len() == 0,
    {
        self.suggestions.clear();
        self.suffix_start = None;
        self.word_end = None;
        self.word_start = None;
    }
}

impl Default for SuggestionState {
    fn default() -> (s: Self)
        ensures
            s.word_start is None,
            s.word_end is None,
            s.suffix_start is None,
            s.suggestions@.len() == 0,
    {
        Self::new()
    }
}

/// Words shorter than this get no suggestions, so the popup does not
/// flash up after the first keystroke of every word.
pub const MIN_SUGGESTION_WORD_LEN: usize = 2;

/// Suggestions for the word at the cursor: the word's byte range in its
/// line and the candidates.
pub struct WordSuggestions {
    pub start_byte: usize,
    pub end_byte: usize,
    pub suggestions: Vec<String>,
}

/// What to suggest with the cursor at byte `cursor_byte` of `line`
/// (clamped to the line's end): nothing unless the cursor touches a
/// word of at least [`MIN_SUGGESTION_WORD_LEN`] characters whose first
/// letter is Cyrillic or Mongolian and the dictionary has candidates for
/// it; otherwise the word's byte range and the candidates.
pub open spec fn spec_word_suggestions(
    groups: Seq<(Seq<char>, Seq<Seq<char>>)>,
    line: Seq<char>,
    cursor_byte: int,
) -> Option<(int, int, Seq<Seq<char>>)> {
    let m = if cursor_byte < byte_len(line) {
        cursor_byte
    } else {
        byte_len(line) as int
    };
    let ci = char_index_of_byte(line, m);
    match spec_word_bounds(line, ci) {
        None => None,
        Some((s, e)) => {
            let w = line.subrange(s, e);
            if e - s < MIN_SUGGESTION_WORD_LEN {
                None
            } else {
                match first_alphabetic(w) {
                    None => None,
                    Some(c) => if spec_classify_char(c) == Script::Other {
                        None
                    } else {
                        let sug = spec_suggest(groups, w, spec_classify_char(c));
                        if sug.len() == 0 {
                            None
                        } else {
                            Some((byte_len(line.take(s)) as int, byte_len(line.take(e)) as int, sug))
                        }
                    },
                }
            }
        },
    }
}

/// Suggestions for the word at byte `cursor_byte` of `line`, as
/// [`spec_word_suggestions`] describes.
pub fn word_suggestions(dictionary: &Dictionary, line: &str, cursor_byte: usize) -> (r: Option<
    WordSuggestions,
>)
    requires
        dictionary.wf(),
        is_char_start(
            line@,
            if cursor_byte < byte_len(line@) {
                cursor_byte as int
            } else {
                byte_len(line@) as int
            },
        ),
    ensures
        match r {
            None => spec_word_suggestions(dictionary.groups(), line@, cursor_byte as int) is None,
            Some(ws) => spec_word_suggestions(dictionary.groups(), line@, cursor_byte as int) == Some(
                (ws.start_byte as int, ws.end_byte as int, views(ws.suggestions@)),
            ),
        },
{
    let v = chars_of(line);
    let total = line.as_bytes().len();
    let m = if cursor_byte < total {
        cursor_byte
    } else {
        total
    };
    let ci = char_index_at(&v, m);
    let (start, end) = match current_word_bounds(v.as_slice(), ci) {
        Some(p) => p,
        None => {
            return None;
        },
    };
    proof {
        let p = choose|p: (int, int)| is_word_around(line@, ci as int, p.0, p.1);
        lemma_word_around_unique(line@, ci as int, start as int, end as int, p.0, p.1);
    }
    if end - start < MIN_SUGGESTION_WORD_LEN {
        return None;
    }
    let word = string_from_range(&v, start, end);
    let word_chars = chars_of(word.as_str());
    let script = match classify_script(word_chars.as_slice()) {
        Some(s) => s,
        None => {
            return None;
        },
    };
    if script == Script::Other {
        return None;
    }
    let suggestions = dictionary.suggest(word.as_str(), script);
    if suggestions.len() == 0 {
        return None;
    }
    let start_byte = byte_offset_of(&v, start);
    let end_byte = byte_offset_of(&v, end);
    Some(WordSuggestions { start_byte, end_byte, suggestions })
}

} // verus!
