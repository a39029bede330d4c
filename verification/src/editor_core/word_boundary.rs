//! Finding the word at the cursor, and its script.
//!
//! A word is a run of letters of any script, with the Mongolian
//! format controls counting as part of it; anything else (spaces,
//! punctuation, digits) separates words. Everything works on the
//! characters of a single line and a cursor given as a character
//! position.

use vstd::prelude::*;
use crate::editor_core::format_control::{is_format_control, spec_is_format_control};
use crate::text::{char_is_alphabetic, is_alphabetic};

verus! {

/// The writing system of a word, which picks the dictionary index to
/// search.
#[derive(Debug, Clone, Copy, PartialEq, Eq, Structural)]
pub enum Script {
    Cyrillic,
    Mongolian,
    /// Any other letters, Latin for instance.
    Other,
}

/// Part of a word: alphabetic (any script) or a Mongolian format control.
pub open spec fn spec_is_word_char(c: char) -> bool {
    char_is_alphabetic(c) || spec_is_format_control(c)
}

fn is_word_char(c: char) -> (r: bool)
    ensures
        r == spec_is_word_char(c),
{
    is_alphabetic(c) || is_format_control(c)
}

/// `[start, end)` is the maximal run of word characters of `s`
/// containing position `ci` (as a boundary between characters).
pub open spec fn is_word_around(s: Seq<char>, ci: int, start: int, end: int) -> bool {
    &&& 0 <= start <= ci <= end <= s.len()
    &&& forall|k: int| start <= k < end ==> spec_is_word_char(#[trigger] s[k])
    &&& start == 0 || !spec_is_word_char(s[start - 1])
    &&& end == s.len() || !spec_is_word_char(s[end])
}

/// Whether the cursor at `ci` touches a word character on either side.
pub open spec fn touches_word(s: Seq<char>, ci: int) -> bool {
    (ci > 0 && spec_is_word_char(s[ci - 1])) || (ci < s.len() && spec_is_word_char(s[ci]))
}

/// The character range `[start, end)` of the word the cursor is in or
/// touches; a cursor beyond the line counts as being at its end.
/// `None` when the characters on both sides of the cursor are not part
/// of a word.
pub fn current_word_bounds(chars: &[char], cursor_index: usize) -> (r: Option<(usize, usize)>)
    ensures
        ({
            let ci = if cursor_index <= chars@.len() { cursor_index as int } else { chars@.len() as int };
            &&& r is None <==> !touches_word(chars@, ci)
            &&& r matches Some((start, end)) ==> is_word_around(chars@, ci, start as int, end as int)
        }),
{
    let n = chars.len();
    let ci = if cursor_index < n { cursor_index } else { n };
    let left_is_word = ci > 0 && is_word_char(chars[ci - 1]);
    let right_is_word = ci < n && is_word_char(chars[ci]);
    if !(left_is_word || right_is_word) {
        return None;
    }
    let cursor_index = ci;
    let mut start = cursor_index;
    while start > 0 && is_word_char(chars[start - 1])
        invariant
            start <= cursor_index <= chars@.len(),
            forall|k: int| start <= k < cursor_index ==> spec_is_word_char(#[trigger] chars@[k]),
        decreases start,
    {
        start -= 1;
    }
    let mut end = cursor_index;
    while end < chars.len() && is_word_char(chars[end])
        invariant
            start <= cursor_index <= end <= chars@.len(),
            forall|k: int| start <= k < end ==> spec_is_word_char(#[trigger] chars@[k]),
        decreases chars@.len() - end,
    {
        end += 1;
    }
    Some((start, end))
}

/// The first alphabetic character of `s`, if any.
pub open spec fn first_alphabetic(s: Seq<char>) -> Option<char>
    decreases s.len(),
{
    if s.len() == 0 {
        None
    } else if char_is_alphabetic(s[0]) {
        Some(s[0])
    } else {
        first_alphabetic(s.drop_first())
    }
}

/// Script of a single letter, by Unicode block.
pub open spec fn spec_classify_char(c: char) -> Script {
    if 0x0400 <= (c as u32) <= 0x04FF {
        Script::Cyrillic
    } else if 0x1800 <= (c as u32) <= 0x18AF {
        Script::Mongolian
    } else {
        Script::Other
    }
}

/// Classify a word's script by its first alphabetic character; format
/// controls and other non-letters before it are skipped. `None` when the
/// word holds no alphabetic character.
pub fn classify_script(word: &[char]) -> (r: Option<Script>)
    ensures
        r == (match first_alphabetic(word@) {
            Some(c) => Some(spec_classify_char(c)),
            None => None,
        }),
{
    let mut i: usize = 0;
    assert(word@.skip(0) =~= word@);
    while i < word.len()
        invariant
            i <= word@.len(),
            first_alphabetic(word@.skip(i as int)) == first_alphabetic(word@),
        decreases word@.len() - i,
    {
        let c = word[i];
        assert(word@.skip(i as int)[0] == c);
        if is_alphabetic(c) {
            return Some(classify_char(c));
        }
        assert(word@.skip(i as int).drop_first() =~= word@.skip(i + 1));
        i += 1;
    }
    assert(word@.skip(i as int).len() == 0);
    None
}

fn classify_char(c: char) -> (s: Script)
    ensures
        s == spec_classify_char(c),
{
    let cp = c as u32;
    if 0x0400 <= cp && cp <= 0x04FF {
        Script::Cyrillic
    } else if 0x1800 <= cp && cp <= 0x18AF {
        Script::Mongolian
    } else {
        Script::Other
    }
}


/// A cursor position lies in at most one maximal run of word
/// characters.
pub proof fn lemma_word_around_unique(s: Seq<char>, ci: int, a: int, b: int, c: int, d: int)
    requires
        is_word_around(s, ci, a, b),
        is_word_around(s, ci, c, d),
    ensures
        a == c,
        b == d,
{
    if a < c {
        assert(spec_is_word_char(s[c - 1]));
    }
    if c < a {
        assert(spec_is_word_char(s[a - 1]));
    }
    if b < d {
        assert(spec_is_word_char(s[b]));
    }
    if d < b {
        assert(spec_is_word_char(s[d]));
    }
}

/// The word around `ci`, when the cursor touches one.
pub open spec fn spec_word_bounds(s: Seq<char>, ci: int) -> Option<(int, int)> {
    if touches_word(s, ci) {
        Some(choose|p: (int, int)| is_word_around(s, ci, p.0, p.1))
    } else {
        None
    }
}

/// Scripts go by Unicode block: every character of the Cyrillic block
/// U+0400..=U+04FF (Russian letters and the Mongolian Cyrillic Ө ө Ү ү
/// alike) is Cyrillic, every character of the Mongolian block
/// U+1800..=U+18AF is Mongolian, and every other character is neither.
pub proof fn lemma_scripts_follow_unicode_blocks(c: char)
    ensures
        (0x0400 <= (c as u32) && (c as u32) <= 0x04FF) <==> spec_classify_char(c) == Script::Cyrillic,
        (0x1800 <= (c as u32) && (c as u32) <= 0x18AF) <==> spec_classify_char(c) == Script::Mongolian,
{
}

/// A word's script is that of its first letter: when `word[k]` is
/// alphabetic and nothing before it is, `classify_script` reads `word[k]`.
pub proof fn lemma_word_script_is_first_letters(word: Seq<char>, k: int)
    requires
        0 <= k < word.len(),
        char_is_alphabetic(word[k]),
        forall|j: int| 0 <= j < k ==> !char_is_alphabetic(#[trigger] word[j]),
    ensures
        first_alphabetic(word) == Some(word[k]),
    decreases k,
{
    if k > 0 {
        assert(!char_is_alphabetic(word[0]));
        assert forall|j: int| 0 <= j < k - 1 implies !char_is_alphabetic(#[trigger] word.drop_first()[j]) by {
            assert(word.drop_first()[j] == word[j + 1]);
        }
        lemma_word_script_is_first_letters(word.drop_first(), k - 1);
    }
}

/// Words are made of letters of any script and the Mongolian format
/// controls (U+180B..=U+180F, U+202F); everything else, digits, spaces and
/// punctuation among them, separates words.
pub proof fn lemma_word_characters(c: char)
    ensures
        spec_is_word_char(c) <==> (char_is_alphabetic(c) || ('\u{180B}' <= c && c <= '\u{180F}') || c
            == '\u{202F}'),
{
}

} // verus!
