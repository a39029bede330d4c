//! Search and replace over the document.
//!
//! Every search is a regex search with the `regex` crate. A query typed
//! as plain text is escaped first, so it matches itself literally; the
//! whole-word option puts `\b(?:` and `)\b` around the pattern, and
//! the case option sets the builder's case-insensitivity. Lines are
//! searched one at a time, so no match runs across a line break.

use vstd::prelude::*;
use vstd::arithmetic::div_mod::{
    lemma_add_mod_noop_right, lemma_mod_add_multiples_vanish, lemma_mod_bound, lemma_mod_pos_bound, lemma_mod_self_0, lemma_mod_sub_multiples_vanish,
    lemma_small_mod,
};
use crate::editor_core::commands::{command, command_view, CommandInfo};
use crate::text::{chars_of, string_from_chars, views};

verus! {

#[verifier::external_type_specification]
#[verifier::external_body]
pub struct ExRegex(regex::Regex);

#[verifier::external_type_specification]
#[verifier::external_body]
pub struct ExCursor(cosmic_text::Cursor);

/// Where one match is. Offsets count bytes of the line's text, as
/// cursor positions in the text buffer do.
#[derive(Clone, Copy, Debug)]
pub struct MatchRange {
    /// The line it is on.
    pub line: usize,
    /// Its first byte.
    pub start: usize,
    /// One past its last byte.
    pub end: usize,
}

/// What is being searched for, how, and what the last search found.
pub struct FindReplaceState {
    /// The text or pattern searched for.
    pub query: String,
    /// What a replace puts in place of a match.
    pub replacement: String,
    /// Match letter case exactly.
    pub case_sensitive: bool,
    /// Only match whole words.
    pub whole_word: bool,
    /// Read the query as a regular expression rather than as text.
    pub use_regex: bool,
    /// The matches, in document order.
    pub matches: Vec<MatchRange>,
    /// Which match is selected, if any.
    pub current: Option<usize>,
    /// Why the last pattern did not compile, if it did not.
    pub error: Option<String>,
}

// ---------------------------------------------------------------------
// The regex crate
// ---------------------------------------------------------------------

/// The characters `regex::escape` puts a backslash before.
pub open spec fn is_regex_meta(c: char) -> bool {
    c == '\\' || c == '.' || c == '+' || c == '*' || c == '?' || c == '(' || c == ')' || c == '|'
        || c == '[' || c == ']' || c == '{' || c == '}' || c == '^' || c == '$' || c == '#' || c
        == '&' || c == '-' || c == '~'
}

/// `text` with a backslash before every regex meta character.
pub open spec fn spec_escape(text: Seq<char>) -> Seq<char>
    decreases text.len(),
{
    if text.len() == 0 {
        Seq::empty()
    } else {
        let rest = spec_escape(text.drop_last());
        let c = text.last();
        if is_regex_meta(c) {
            rest.push('\\').push(c)
        } else {
            rest.push(c)
        }
    }
}

/// What building a regex from `pattern` gives: `None` when it compiles,
/// `Some(message)` with the error's text when it does not.
pub uninterp spec fn regex_build_error(pattern: Seq<char>, case_insensitive: bool) -> Option<
    Seq<char>,
>;

/// The `(start, end)` byte offsets of the successive non-overlapping
/// matches of the compiled `pattern` in `haystack`.
pub uninterp spec fn regex_find_spans(
    pattern: Seq<char>,
    case_insensitive: bool,
    haystack: Seq<char>,
) -> Seq<(usize, usize)>;

/// A regex together with the pattern and option it was built from.
pub struct CompiledPattern {
    regex: regex::Regex,
    pattern: Ghost<Seq<char>>,
    case_insensitive: Ghost<bool>,
}

impl CompiledPattern {
    pub closed spec fn pattern(&self) -> Seq<char> {
        self.pattern@
    }

    pub closed spec fn case_insensitive(&self) -> bool {
        self.case_insensitive@
    }
}

/// Whether `c` is one of the characters a regex reads as syntax.
fn is_meta_char(c: char) -> (r: bool)
    ensures
        r == is_regex_meta(c),
{
    c == '\\' || c == '.' || c == '+' || c == '*' || c == '?' || c == '(' || c == ')' || c == '|'
        || c == '[' || c == ']' || c == '{' || c == '}' || c == '^' || c == '$' || c == '#' || c
        == '&' || c == '-' || c == '~'
}

/// `text` with every regex meta character (`\ . + * ? ( ) | [ ] { } ^ $
/// # & - ~`) preceded by a backslash, so that a regex matches it
/// literally; what `regex::escape` gives.
fn regex_escape(text: &str) -> (r: String)
    ensures
        r@ == spec_escape(text@),
{
    let v = chars_of(text);
    let mut out: Vec<char> = Vec::new();
    let mut i: usize = 0;
    while i < v.len()
        invariant
            v@ == text@,
            i <= v@.len(),
            out@ == spec_escape(v@.take(i as int)),
        decreases v@.len() - i,
    {
        let c = v[i];
        proof {
            assert(v@.take(i + 1).drop_last() =~= v@.take(i as int));
            assert(v@.take(i + 1).last() == c);
        }
        if is_meta_char(c) {
            out.push('\\');
        }
        out.push(c);
        i += 1;
    }
    proof {
        assert(v@.take(i as int) =~= v@);
    }
    string_from_chars(&out)
}

/// `RegexBuilder::new(pattern).case_insensitive(..).build()`: succeeds
/// exactly when [`regex_build_error`] is `None`, and otherwise returns
/// the error's text (`Error::to_string`).
#[verifier::external_body]
fn build_regex(pattern: &str, case_insensitive: bool) -> (r: Result<CompiledPattern, String>)
    ensures
        match r {
            Ok(c) => regex_build_error(pattern@, case_insensitive) is None && c.pattern()
                == pattern@ && c.case_insensitive() == case_insensitive,
            Err(msg) => regex_build_error(pattern@, case_insensitive) == Some(msg@),
        },
{
    match regex::RegexBuilder::new(pattern).case_insensitive(case_insensitive).build() {
        Ok(regex) => Ok(
            CompiledPattern { regex, pattern: Ghost(pattern@), case_insensitive: Ghost(case_insensitive) },
        ),
        Err(e) => Err(e.to_string()),
    }
}

/// `Regex::find_iter` with each match's `start()` and `end()`. As the
/// crate documents, matches are successive and non-overlapping, each
/// with `start <= end`, byte offsets within the haystack.
#[verifier::external_body]
fn find_spans(re: &CompiledPattern, haystack: &str) -> (r: Vec<(usize, usize)>)
    ensures
        r@ == regex_find_spans(re.pattern(), re.case_insensitive(), haystack@),
        forall|k: int|
            0 <= k < r@.len() ==> (#[trigger] r@[k]).0 <= r@[k].1 <= vstd::utf8::encode_utf8(haystack@).len(),
        forall|k: int| 0 <= k < r@.len() - 1 ==> (#[trigger] r@[k]).1 <= r@[k + 1].0,
{
    re.regex.find_iter(haystack).map(|m| (m.start(), m.end())).collect()
}

/// What a `cosmic_text::Cursor` points at: its `(line, index)` fields.
pub uninterp spec fn cursor_position(c: cosmic_text::Cursor) -> (usize, usize);

/// `cosmic_text::Cursor::new(line, index)`, which sets the cursor's
/// `line` and `index` fields to its arguments (and its affinity to the
/// default, which is not modelled here).
#[verifier::external_body]
fn cursor_at(line: usize, index: usize) -> (c: cosmic_text::Cursor)
    ensures
        cursor_position(c) == (line, index),
{
    cosmic_text::Cursor::new(line, index)
}

/// The positions of the two ends of match `m`: its line with its start,
/// and its line with its end.
pub open spec fn match_ends(m: MatchRange) -> ((usize, usize), (usize, usize)) {
    ((m.line, m.start), (m.line, m.end))
}

// ---------------------------------------------------------------------
// Specifications
// ---------------------------------------------------------------------

/// The regex a query searches with: the query itself in regex mode, its
/// escaped text otherwise, wrapped in `\b(?:...)\b` for whole words.
pub open spec fn spec_build_pattern(query: Seq<char>, use_regex: bool, whole_word: bool) -> Seq<char> {
    let base = if use_regex {
        query
    } else {
        spec_escape(query)
    };
    if whole_word {
        seq!['\\', 'b', '(', '?', ':'] + base + seq![')', '\\', 'b']
    } else {
        base
    }
}

/// The non-empty spans of one line, as matches on line `line`.
pub open spec fn span_matches(line: usize, spans: Seq<(usize, usize)>) -> Seq<MatchRange>
    decreases spans.len(),
{
    if spans.len() == 0 {
        Seq::empty()
    } else {
        let rest = span_matches(line, spans.drop_last());
        let s = spans.last();
        if s.0 == s.1 {
            rest
        } else {
            rest.push(MatchRange { line, start: s.0, end: s.1 })
        }
    }
}

/// Every non-empty match of the compiled pattern, line by line.
pub open spec fn all_matches(pattern: Seq<char>, case_insensitive: bool, lines: Seq<Seq<char>>) -> Seq<
    MatchRange,
>
    decreases lines.len(),
{
    if lines.len() == 0 {
        Seq::empty()
    } else {
        all_matches(pattern, case_insensitive, lines.drop_last()) + span_matches(
            (lines.len() - 1) as usize,
            regex_find_spans(pattern, case_insensitive, lines.last()),
        )
    }
}

/// What a search leaves: the matches, the current match, and the error
/// text. An empty query finds nothing; a pattern that does not compile
/// finds nothing and reports the error; otherwise every non-empty match
/// is found and the first one is current.
pub open spec fn search_outcome(
    query: Seq<char>,
    case_sensitive: bool,
    whole_word: bool,
    use_regex: bool,
    lines: Seq<Seq<char>>,
) -> (Seq<MatchRange>, Option<usize>, Option<Seq<char>>) {
    if query.len() == 0 {
        (Seq::empty(), None, None)
    } else {
        let pattern = spec_build_pattern(query, use_regex, whole_word);
        match regex_build_error(pattern, !case_sensitive) {
            Some(msg) => (Seq::empty(), None, Some(msg)),
            None => {
                let ms = all_matches(pattern, !case_sensitive, lines);
                (ms, if ms.len() == 0 {
                    None
                } else {
                    Some(0)
                }, None)
            },
        }
    }
}

pub open spec fn error_view(e: Option<String>) -> Option<Seq<char>> {
    match e {
        Some(s) => Some(s@),
        None => None,
    }
}

/// Matches are non-empty, lie within their line's bytes, and come in
/// document order without overlapping.
pub open spec fn matches_in_order(ms: Seq<MatchRange>, lines: Seq<Seq<char>>) -> bool {
    &&& forall|k: int|
        0 <= k < ms.len() ==> (#[trigger] ms[k]).line < lines.len() && ms[k].start < ms[k].end
            <= vstd::utf8::encode_utf8(lines[ms[k].line as int]).len()
    &&& forall|a: int, b: int|
        0 <= a < b < ms.len() ==> (#[trigger] ms[a]).line < (#[trigger] ms[b]).line || (ms[a].line
            == ms[b].line && ms[a].end <= ms[b].start)
}

/// The match after (`forward`) or before the current one, wrapping
/// around; the first or last match when none is current; `None` when
/// there are no matches.
pub open spec fn spec_advance(len: nat, current: Option<usize>, forward: bool) -> Option<usize> {
    if len == 0 {
        None
    } else {
        Some(
            match current {
                None => if forward {
                    0
                } else {
                    (len - 1) as usize
                },
                Some(i) => if forward {
                    ((i + 1) % (len as int)) as usize
                } else {
                    ((i + len - 1) % (len as int)) as usize
                },
            },
        )
    }
}

/// Whether match `m` starts at or after `(line, index)`.
pub open spec fn at_or_after(m: MatchRange, line: usize, index: usize) -> bool {
    m.line > line || (m.line == line && m.start >= index)
}

/// Position of the first match at or after `(line, index)`, or the
/// number of matches if there is none.
pub open spec fn first_at_or_after(ms: Seq<MatchRange>, line: usize, index: usize) -> int
    decreases ms.len(),
{
    if ms.len() == 0 {
        0
    } else if at_or_after(ms[0], line, index) {
        0
    } else {
        1 + first_at_or_after(ms.drop_first(), line, index)
    }
}

/// The current match after a mutation: the first match at or after
/// `(line, index)`, else the first match; `None` without matches.
pub open spec fn spec_select_from(ms: Seq<MatchRange>, line: usize, index: usize) -> Option<usize> {
    if ms.len() == 0 {
        None
    } else {
        let p = first_at_or_after(ms, line, index);
        Some(
            if p < ms.len() {
                p as usize
            } else {
                0
            },
        )
    }
}

proof fn lemma_first_at_or_after_unique(ms: Seq<MatchRange>, line: usize, index: usize, p: int)
    requires
        0 <= p <= ms.len(),
        forall|k: int| 0 <= k < p ==> !at_or_after(#[trigger] ms[k], line, index),
        p < ms.len() ==> at_or_after(ms[p], line, index),
    ensures
        first_at_or_after(ms, line, index) == p,
    decreases ms.len(),
{
    if ms.len() > 0 && p > 0 {
        assert forall|k: int| 0 <= k < p - 1 implies !at_or_after(#[trigger] ms.drop_first()[k], line, index) by {
            assert(ms.drop_first()[k] == ms[k + 1]);
        }
        lemma_first_at_or_after_unique(ms.drop_first(), line, index, p - 1);
    }
}

// ---------------------------------------------------------------------
// The state
// ---------------------------------------------------------------------

impl FindReplaceState {
    /// An empty query with default options: case-insensitive, partial
    /// words allowed, plain text.
    pub fn new() -> (s: Self)
        ensures
            s.query@.len() == 0,
            s.replacement@.len() == 0,
            !s.case_sensitive,
            !s.whole_word,
            !s.use_regex,
            s.matches@.len() == 0,
            s.current is None,
            s.error is None,
    {
        let matches: Vec<MatchRange> = Vec::new();
        FindReplaceState {
            matches,
            current: None,
            error: None,
            query: String::new(),
            replacement: String::new(),
            use_regex: false,
            whole_word: false,
            case_sensitive: false,
        }
    }

    /// The regex this query searches with.
    fn build_pattern(&self) -> (r: String)
        ensures
            r@ == spec_build_pattern(self.query@, self.use_regex, self.whole_word),
    {
        let base = if self.use_regex {
            self.query.clone()
        } else {
            regex_escape(self.query.as_str())
        };
        if self.whole_word {
            let mut v: Vec<char> = Vec::new();
            v.push('\\');
            v.push('b');
            v.push('(');
            v.push('?');
            v.push(':');
            let mut b = chars_of(base.as_str());
            v.append(&mut b);
            v.push(')');
            v.push('\\');
            v.push('b');
            assert(v@ =~= seq!['\\', 'b', '(', '?', ':'] + base@ + seq![')', '\\', 'b']);
            string_from_chars(&v)
        } else {
            base
        }
    }

    /// Search the given lines again, replacing `matches`, `current` and
    /// `error`. Empty matches (which a pattern like `a*` can produce) are
    /// left out.
    pub fn search(&mut self, lines: &[String])
        ensures
            final(self).query == old(self).query,
            final(self).replacement == old(self).replacement,
            final(self).case_sensitive == old(self).case_sensitive,
            final(self).whole_word == old(self).whole_word,
            final(self).use_regex == old(self).use_regex,
            (final(self).matches@, final(self).current, error_view(final(self).error))
                == search_outcome(
                old(self).query@,
                old(self).case_sensitive,
                old(self).whole_word,
                old(self).use_regex,
                views(lines@),
            ),
            matches_in_order(final(self).matches@, views(lines@)),
    {
        self.matches.clear();
        self.error = None;
        if self.query.as_str().is_empty() {
            self.current = None;
            return;
        }
        let pattern = self.build_pattern();
        let ghost p = pattern@;
        let ghost ci = !self.case_sensitive;
        let regex = match build_regex(pattern.as_str(), !self.case_sensitive) {
            Ok(r) => r,
            Err(msg) => {
                self.error = Some(msg);
                self.current = None;
                return;
            },
        };
        let ghost ls = views(lines@);
        let mut i: usize = 0;
        assert(ls.take(0) =~= Seq::<Seq<char>>::empty());
        while i < lines.len()
            invariant
                ls == views(lines@),
                regex.pattern() == p,
                regex.case_insensitive() == ci,
                i <= lines@.len(),
                self.matches@ == all_matches(p, ci, ls.take(i as int)),
                matches_in_order(self.matches@, ls),
                forall|k: int| 0 <= k < self.matches@.len() ==> (#[trigger] self.matches@[k]).line < i,
                self.query == old(self).query,
                self.replacement == old(self).replacement,
                self.case_sensitive == old(self).case_sensitive,
                self.whole_word == old(self).whole_word,
                self.use_regex == old(self).use_regex,
                self.error is None,
            decreases lines@.len() - i,
        {
            let spans = find_spans(&regex, lines[i].as_str());
            let ghost before = self.matches@;
            let ghost text = ls[i as int];
            assert(lines@[i as int]@ == text);
            let mut j: usize = 0;
            assert(spans@.take(0) =~= Seq::<(usize, usize)>::empty());
            assert(before + Seq::<MatchRange>::empty() =~= before);
            while j < spans.len()
                invariant
                    ls == views(lines@),
                    i < lines@.len(),
                    text == ls[i as int],
                    j <= spans@.len(),
                    forall|k: int|
                        0 <= k < spans@.len() ==> (#[trigger] spans@[k]).0 <= spans@[k].1
                            <= vstd::utf8::encode_utf8(text).len(),
                    forall|k: int| 0 <= k < spans@.len() - 1 ==> (#[trigger] spans@[k]).1 <= spans@[k + 1].0,
                    self.matches@ == before + span_matches(i, spans@.take(j as int)),
                    matches_in_order(self.matches@, ls),
                    forall|k: int| 0 <= k < before.len() ==> (#[trigger] before[k]).line < i,
                    forall|k: int| 0 <= k < self.matches@.len() ==> (#[trigger] self.matches@[k]).line <= i,
                    forall|k: int|
                        before.len() <= k < self.matches@.len() ==> (#[trigger] self.matches@[k]).line == i
                            && self.matches@[k].end <= (if j == 0 {
                            0
                        } else {
                            spans@[j - 1].1 as int
                        }),
                    self.query == old(self).query,
                    self.replacement == old(self).replacement,
                    self.case_sensitive == old(self).case_sensitive,
                    self.whole_word == old(self).whole_word,
                    self.use_regex == old(self).use_regex,
                    self.error is None,
                decreases spans@.len() - j,
            {
                let (s, e) = spans[j];
                let ghost old_ms = self.matches@;
                assert(spans@.take(j + 1).drop_last() =~= spans@.take(j as int));
                assert(spans@.take(j + 1).last() == (s, e));
                if s != e {
                    let m = MatchRange { line: i, start: s, end: e };
                    self.matches.push(m);
                    proof {
                        assert(self.matches@ =~= old_ms.push(m));
                        assert(before + span_matches(i, spans@.take(j + 1)) =~= (before + span_matches(
                            i,
                            spans@.take(j as int),
                        )).push(m));
                        assert forall|a: int, b: int|
                            0 <= a < b < self.matches@.len() implies (#[trigger] self.matches@[a]).line
                            < (#[trigger] self.matches@[b]).line || (self.matches@[a].line
                            == self.matches@[b].line && self.matches@[a].end <= self.matches@[b].start) by {
                            if b < old_ms.len() {
                                assert(self.matches@[a] == old_ms[a]);
                                assert(self.matches@[b] == old_ms[b]);
                            } else if a >= before.len() {
                                assert(self.matches@[a] == old_ms[a]);
                                assert(j > 0);
                                assert(spans@[j - 1].1 <= spans@[j as int].0);
                            } else {
                                assert(self.matches@[a] == before[a]);
                            }
                        }
                        assert forall|k: int| 0 <= k < self.matches@.len() implies (#[trigger] self.matches@[k]).line < ls.len()
                            && self.matches@[k].start < self.matches@[k].end
                            <= vstd::utf8::encode_utf8(ls[self.matches@[k].line as int]).len() by {
                            if k < old_ms.len() {
                                assert(self.matches@[k] == old_ms[k]);
                            }
                        }
                        assert forall|k: int| before.len() <= k < self.matches@.len() implies (#[trigger] self.matches@[k]).line == i
                            && self.matches@[k].end <= spans@[j as int].1 by {
                            if k < old_ms.len() {
                                assert(self.matches@[k] == old_ms[k]);
                                if j > 0 {
                                    assert(spans@[j - 1].1 <= spans@[j as int].0);
                                }
                            }
                        }
                    }
                } else {
                    proof {
                        assert forall|k: int| before.len() <= k < self.matches@.len() implies (#[trigger] self.matches@[k]).line == i
                            && self.matches@[k].end <= spans@[j as int].1 by {
                            if j > 0 {
                                assert(spans@[j - 1].1 <= spans@[j as int].0);
                            }
                        }
                    }
                }
                j += 1;
            }
            proof {
                assert(spans@.take(j as int) =~= spans@);
                assert(ls.take(i + 1).drop_last() =~= ls.take(i as int));
                assert(ls.take(i + 1).last() == text);
                assert(all_matches(p, ci, ls.take(i + 1)) == all_matches(p, ci, ls.take(i as int)) + span_matches(
                    i,
                    regex_find_spans(p, ci, text),
                ));
            }
            i += 1;
        }
        assert(ls.take(i as int) =~= ls);
        self.current = if self.matches.len() == 0 {
            None
        } else {
            Some(0)
        };
    }

    /// Select the following (`forward`) or preceding match, going round
    /// from the last to the first and back; returns what is selected
    /// then, `None` when nothing matched.
    pub fn advance(&mut self, forward: bool) -> (r: Option<usize>)
        requires
            old(self).matches@.len() > 0 ==> match old(self).current {
                Some(i) => if forward {
                    i < usize::MAX
                } else {
                    i + old(self).matches@.len() - 1 <= usize::MAX
                },
                None => true,
            },
        ensures
            r == spec_advance(old(self).matches@.len(), old(self).current, forward),
            final(self).current == r,
            final(self).matches == old(self).matches,
            final(self).query == old(self).query,
            final(self).replacement == old(self).replacement,
            final(self).case_sensitive == old(self).case_sensitive,
            final(self).whole_word == old(self).whole_word,
            final(self).use_regex == old(self).use_regex,
            final(self).error == old(self).error,
    {
        let n = self.matches.len();
        let next = if n == 0 {
            None
        } else {
            Some(
                match (self.current, forward) {
                    (None, true) => 0,
                    (None, false) => n - 1,
                    (Some(i), true) => (i + 1) % n,
                    (Some(i), false) => (i + (n - 1)) % n,
                },
            )
        };
        self.current = next;
        next
    }

    /// Reselect after an edit moved the matches: the first match starting
    /// at or after `(line, index)`, usually where a replace left the
    /// cursor; the first match if none does; nothing if none are left.
    pub fn select_from(&mut self, line: usize, index: usize)
        ensures
            final(self).current == spec_select_from(old(self).matches@, line, index),
            final(self).matches == old(self).matches,
            final(self).query == old(self).query,
            final(self).replacement == old(self).replacement,
            final(self).case_sensitive == old(self).case_sensitive,
            final(self).whole_word == old(self).whole_word,
            final(self).use_regex == old(self).use_regex,
            final(self).error == old(self).error,
    {
        if self.matches.len() == 0 {
            self.current = None;
            return;
        }
        let mut p: usize = 0;
        while p < self.matches.len() && !(self.matches[p].line > line || (self.matches[p].line == line
            && self.matches[p].start >= index))
            invariant
                p <= self.matches@.len(),
                forall|k: int| 0 <= k < p ==> !at_or_after(#[trigger] self.matches@[k], line, index),
            decreases self.matches@.len() - p,
        {
            p += 1;
        }
        proof {
            lemma_first_at_or_after_unique(self.matches@, line, index, p as int);
        }
        self.current = Some(
            if p < self.matches.len() {
                p
            } else {
                0
            },
        );
    }

    /// Forget the query, the replacement and the matches; the options
    /// stay.
    pub fn clear(&mut self)
        ensures
            final(self).query@.len() == 0,
            final(self).replacement@.len() == 0,
            final(self).matches@.len() == 0,
            final(self).current is None,
            final(self).error is None,
            final(self).case_sensitive == old(self).case_sensitive,
            final(self).whole_word == old(self).whole_word,
            final(self).use_regex == old(self).use_regex,
    {
        self.query = String::new();
        self.replacement = String::new();
        self.matches.clear();
        self.current = None;
        self.error = None;
    }

    /// The match at `idx`, if there is one.
    pub fn match_at(&self, idx: usize) -> (r: Option<MatchRange>)
        ensures
            r == (if idx < self.matches@.len() {
                Some(self.matches@[idx as int])
            } else {
                None
            }),
    {
        if idx < self.matches.len() {
            Some(self.matches[idx])
        } else {
            None
        }
    }

    /// Buffer cursors at the two ends of match `idx`, used both to
    /// replace it and to paint its highlight.
    pub fn cursor_range(&self, idx: usize) -> (r: Option<(cosmic_text::Cursor, cosmic_text::Cursor)>)
        ensures
            r is Some <==> idx < self.matches@.len(),
            r matches Some((a, b)) ==> (cursor_position(a), cursor_position(b)) == match_ends(
                self.matches@[idx as int],
            ),
    {
        match self.match_at(idx) {
            Some(m) => Some((cursor_at(m.line, m.start), cursor_at(m.line, m.end))),
            None => None,
        }
    }

    /// Buffer cursors at the ends of each match, each with whether it is
    /// the selected one.
    pub fn ranges(&self) -> (r: Vec<(cosmic_text::Cursor, cosmic_text::Cursor, bool)>)
        ensures
            r@.len() == self.matches@.len(),
            forall|k: int| 0 <= k < r@.len() ==> (#[trigger] r@[k]).2 == (self.current == Some(k as usize)),
            forall|k: int|
                0 <= k < r@.len() ==> (cursor_position((#[trigger] r@[k]).0), cursor_position(r@[k].1))
                    == match_ends(self.matches@[k]),
    {
        let mut out: Vec<(cosmic_text::Cursor, cosmic_text::Cursor, bool)> = Vec::new();
        let mut i: usize = 0;
        while i < self.matches.len()
            invariant
                i <= self.matches@.len(),
                out@.len() == i,
                forall|k: int| 0 <= k < i ==> (#[trigger] out@[k]).2 == (self.current == Some(k as usize)),
                forall|k: int|
                    0 <= k < i ==> (cursor_position((#[trigger] out@[k]).0), cursor_position(out@[k].1))
                        == match_ends(self.matches@[k]),
            decreases self.matches@.len() - i,
        {
            let m = self.matches[i];
            let is_current = match self.current {
                Some(c) => c == i,
                None => false,
            };
            out.push((cursor_at(m.line, m.start), cursor_at(m.line, m.end), is_current));
            i += 1;
        }
        out
    }
}

impl Default for FindReplaceState {
    fn default() -> (s: Self)
        ensures
            s.query@.len() == 0,
            s.replacement@.len() == 0,
            !s.case_sensitive,
            !s.whole_word,
            !s.use_regex,
            s.matches@.len() == 0,
            s.current is None,
            s.error is None,
    {
        Self::new()
    }
}

/// Stepping forward then back, or back then forward, returns to the
/// match one started from.
pub proof fn lemma_advance_round_trip(len: nat, i: usize)
    requires
        i < len,
        len <= usize::MAX,
    ensures
        spec_advance(len, spec_advance(len, Some(i), true), false) == Some(i),
        spec_advance(len, spec_advance(len, Some(i), false), true) == Some(i),
{
    let l = len as int;
    if i + 1 < l {
        lemma_small_mod((i + 1) as nat, len);
        lemma_mod_add_multiples_vanish(i as int, l);
        lemma_small_mod(i as nat, len);
    } else {
        lemma_mod_self_0(l);
        lemma_small_mod((l - 1) as nat, len);
    }
    if i > 0 {
        lemma_mod_add_multiples_vanish(i - 1, l);
        lemma_small_mod((i - 1) as nat, len);
        lemma_small_mod(i as nat, len);
    } else {
        lemma_small_mod((l - 1) as nat, len);
        lemma_mod_self_0(l);
    }
}

/// The selection after `n` steps in one direction from `current`.
pub open spec fn advance_steps(len: nat, current: Option<usize>, forward: bool, n: nat) -> Option<usize>
    decreases n,
{
    if n == 0 {
        current
    } else {
        spec_advance(len, advance_steps(len, current, forward, (n - 1) as nat), forward)
    }
}

proof fn lemma_forward_steps(len: nat, i: usize, n: nat)
    requires
        0 < len <= usize::MAX,
        i < len,
    ensures
        advance_steps(len, Some(i), true, n) == Some(((i + n) % (len as int)) as usize),
    decreases n,
{
    let l = len as int;
    if n == 0 {
        lemma_small_mod(i as nat, len);
    } else {
        lemma_forward_steps(len, i, (n - 1) as nat);
        let j = (i + n - 1) % l;
        lemma_mod_pos_bound(i + n - 1, l);
        lemma_add_mod_noop_right(1, i + n - 1, l);
        assert((j + 1) % l == (i + n) % l);
        assert(advance_steps(len, Some(i), true, n) == spec_advance(len, Some(j as usize), true));
    }
}

proof fn lemma_backward_steps(len: nat, i: usize, n: nat)
    requires
        0 < len <= usize::MAX,
        i < len,
    ensures
        advance_steps(len, Some(i), false, n) == Some(((i - n) % (len as int)) as usize),
    decreases n,
{
    let l = len as int;
    if n == 0 {
        lemma_small_mod(i as nat, len);
    } else {
        lemma_backward_steps(len, i, (n - 1) as nat);
        let j = (i - (n - 1)) % l;
        lemma_mod_bound(i - (n - 1), l);
        lemma_add_mod_noop_right(l - 1, i - (n - 1), l);
        lemma_mod_add_multiples_vanish(i - n, l);
        assert((j + l - 1) % l == (i - n) % l);
        assert(advance_steps(len, Some(i), false, n) == spec_advance(len, Some(j as usize), false));
    }
}

/// Going once round: as many steps forward, or as many back, as there are
/// matches lead back to the match one started from.
pub proof fn lemma_advance_full_circle(len: nat, i: usize)
    requires
        i < len,
        len <= usize::MAX,
    ensures
        advance_steps(len, Some(i), true, len) == Some(i),
        advance_steps(len, Some(i), false, len) == Some(i),
{
    lemma_forward_steps(len, i, len);
    lemma_backward_steps(len, i, len);
    lemma_mod_add_multiples_vanish(i as int, len as int);
    lemma_mod_sub_multiples_vanish(i as int, len as int);
    lemma_small_mod(i as nat, len);
}

/// Whether `c` is a character regex syntax gives a meaning to:
/// `\ . + * ? ( ) | [ ] { } ^ $ # & - ~`.
pub open spec fn is_regex_syntax_char(c: char) -> bool {
    c == '\\' || c == '.' || c == '+' || c == '*' || c == '?' || c == '(' || c == ')' || c == '|' || c == '['
        || c == ']' || c == '{' || c == '}' || c == '^' || c == '$' || c == '#' || c == '&' || c == '-' || c
        == '~'
}

/// A plain-text query is searched for literally: escaping it puts a
/// backslash before every character regex syntax gives a meaning to (so
/// `?` in "why?" is matched, not read as "optional") and leaves every
/// other character alone, character by character, in order.
pub proof fn lemma_escape_quotes_regex_syntax(text: Seq<char>, c: char)
    ensures
        is_regex_syntax_char(c) ==> spec_escape(text.push(c)) == spec_escape(text) + seq!['\\', c],
        !is_regex_syntax_char(c) ==> spec_escape(text.push(c)) == spec_escape(text).push(c),
        spec_escape(Seq::<char>::empty()) == Seq::<char>::empty(),
{
    assert(text.push(c).drop_last() =~= text);
    assert(spec_escape(text).push('\\').push(c) =~= spec_escape(text) + seq!['\\', c]);
}

/// Stepping forward from the last match wraps to the first, and back
/// from the first wraps to the last.
pub proof fn lemma_advance_wraps(len: nat)
    requires
        0 < len <= usize::MAX,
    ensures
        spec_advance(len, Some((len - 1) as usize), true) == Some(0usize),
        spec_advance(len, Some(0usize), false) == Some((len - 1) as usize),
{
    lemma_mod_self_0(len as int);
    lemma_small_mod((len - 1) as nat, len);
}


/// Find & replace as a plugin: its commands. Their handlers work on the
/// editor's [`FindReplaceState`].
pub struct FindReplacePlugin;

/// The find & replace commands, in palette order.
pub open spec fn find_command_table() -> Seq<(Seq<char>, Seq<char>, Option<Seq<char>>, Option<Seq<char>>)> {
    seq![
        ("editor.find.setQuery"@, "Find: Set Query / Options"@, Some("Find"@), Some("Ctrl+F"@)),
        ("editor.find.next"@, "Find: Next Match"@, Some("Find"@), Some("F3"@)),
        ("editor.find.prev"@, "Find: Previous Match"@, Some("Find"@), Some("Shift+F3"@)),
        ("editor.find.replaceCurrent"@, "Find: Replace Current Match"@, Some("Find"@), Some("Ctrl+H"@)),
        ("editor.find.replaceAll"@, "Find: Replace All"@, Some("Find"@), None),
        ("editor.find.clear"@, "Find: Close / Clear"@, Some("Find"@), Some("Esc"@))
    ]
}

impl FindReplacePlugin {
    pub fn id(&self) -> (r: &'static str)
        ensures
            r@ == "core.findReplace"@,
    {
        "core.findReplace"
    }

    pub fn name(&self) -> (r: &'static str)
        ensures
            r@ == "Find & Replace"@,
    {
        "Find & Replace"
    }

    /// The commands this plugin contributes, in palette order.
    pub fn command_list(&self) -> (r: Vec<CommandInfo>)
        ensures
            r@.len() == find_command_table().len(),
            forall|i: int| 0 <= i < r@.len() ==> command_view(#[trigger] r@[i]) == find_command_table()[i],
    {
        let mut v: Vec<CommandInfo> = Vec::new();
        v.push(command("editor.find.setQuery", "Find: Set Query / Options", Some("Find"), Some("Ctrl+F")));
        v.push(command("editor.find.next", "Find: Next Match", Some("Find"), Some("F3")));
        v.push(command("editor.find.prev", "Find: Previous Match", Some("Find"), Some("Shift+F3")));
        v.push(command("editor.find.replaceCurrent", "Find: Replace Current Match", Some("Find"), Some("Ctrl+H")));
        v.push(command("editor.find.replaceAll", "Find: Replace All", Some("Find"), None));
        v.push(command("editor.find.clear", "Find: Close / Clear", Some("Find"), Some("Esc")));
        v
    }
}

} // verus!
