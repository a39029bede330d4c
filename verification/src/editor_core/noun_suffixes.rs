//! Which case endings a Traditional Mongolian noun can take.
//!
//! In the script, a case ending is written after the stem with a narrow
//! no-break space (U+202F) in between. The endings come from a table of
//! complete Mongolian-script spellings; which variation selectors or
//! vowel separators an ending carries is part of its spelling and is
//! never derived from a romanisation.

use vstd::prelude::*;
use vstd::relations::{sorted_by, total_ordering};
use vstd::utf8::encode_utf8;
use crate::dictionary::byte_order::{
    compare_bytes, lex_lt, lemma_lex_lt_asymmetric, lemma_lex_lt_irreflexive, lemma_lex_lt_total,
    lemma_lex_lt_transitive,
};
use crate::editor_core::format_control::{is_format_control, spec_is_format_control};
use crate::text::{
    chars_of, line_bounds, range_views, spec_lines, spec_split, split_bounds, string_from_range,
};

verus! {

/// Vowel-harmony class of a stem.
#[derive(Debug, Clone, Copy, PartialEq, Eq, Structural)]
pub enum HarmonyClass {
    Masculine,
    Feminine,
}

/// Which stem endings a catalog row applies to.
#[derive(Debug, Clone, Copy, PartialEq, Eq, Structural)]
pub enum EndingCondition {
    Any,
    VowelOrDiphthong,
    Consonant,
    ConsonantNa,
    ConsonantOther,
    VowelOrSoftClosed,
    HardClosed,
}

/// How a stem ends, judged by its last letter.
#[derive(Debug, Clone, Copy, PartialEq, Eq, Structural)]
pub enum StemEnding {
    VowelOrDiphthong,
    ConsonantNa,
    SoftClosed,
    HardClosed,
    ConsonantOther,
}

/// One catalog row: a case, the stems it applies to, its rank among the
/// cases, and the authored suffix.
#[derive(Debug)]
pub struct SuffixRule {
    pub case: String,
    pub ending: EndingCondition,
    pub harmony: Option<HarmonyClass>,
    pub rank: u8,
    pub form: String,
}

/// A catalog row as plain values: case, ending condition, required
/// harmony (`None` for any), rank, suffix form.
pub type RuleView = (Seq<char>, EndingCondition, Option<HarmonyClass>, u8, Seq<char>);

impl View for SuffixRule {
    type V = RuleView;

    open spec fn view(&self) -> RuleView {
        (self.case@, self.ending, self.harmony, self.rank, self.form@)
    }
}

/// One case ending offered for a stem.
#[derive(Debug, Clone, PartialEq, Eq)]
pub struct CaseSuffixSuggestion {
    /// The case's name, e.g. `"dative"`.
    pub case: String,
    /// The ending, in Mongolian script.
    pub form: String,
}

/// The catalog: `case<TAB>ending<TAB>harmony<TAB>rank<TAB>form` per line;
/// blank lines and `#` lines are skipped.
pub const CATALOG: &'static str = "# case\tending\tharmony\trank\tform\n\
genitive\tvowel_or_diphthong\tany\t1\t\u{1836}\u{1822}\u{1828}\n\
genitive\tconsonant_na\tmasculine\t1\t\u{1824}\n\
genitive\tconsonant_na\tfeminine\t1\t\u{1826}\n\
genitive\tconsonant_other\tmasculine\t1\t\u{1824}\u{1828}\n\
genitive\tconsonant_other\tfeminine\t1\t\u{1826}\u{1828}\n\
accusative\tvowel_or_diphthong\tany\t2\t\u{1836}\u{1822}\n\
accusative\tconsonant\tany\t2\t\u{1822}\n\
dative\tvowel_or_soft_closed\tmasculine\t3\t\u{1833}\u{1824}\n\
dative\tvowel_or_soft_closed\tfeminine\t3\t\u{1833}\u{1826}\n\
dative\thard_closed\tmasculine\t3\t\u{1832}\u{1824}\n\
dative\thard_closed\tfeminine\t3\t\u{1832}\u{1826}\n\
locative\tvowel_or_soft_closed\tmasculine\t4\t\u{1833}\u{1824}\u{1837}\n\
locative\tvowel_or_soft_closed\tfeminine\t4\t\u{1833}\u{1826}\u{1837}\n\
locative\thard_closed\tmasculine\t4\t\u{1832}\u{1824}\u{1837}\n\
locative\thard_closed\tfeminine\t4\t\u{1832}\u{1826}\u{1837}\n\
ablative\tany\tmasculine\t5\t\u{1820}\u{1834}\u{1820}\n\
ablative\tany\tfeminine\t5\t\u{1821}\u{1834}\u{1821}\n\
instrumental\tvowel_or_diphthong\tmasculine\t6\t\u{182A}\u{1820}\u{1837}\n\
instrumental\tvowel_or_diphthong\tfeminine\t6\t\u{182A}\u{1821}\u{1837}\n\
instrumental\tconsonant\tmasculine\t6\t\u{1822}\u{1836}\u{1820}\u{1837}\n\
instrumental\tconsonant\tfeminine\t6\t\u{1822}\u{1836}\u{1821}\u{1837}\n\
comitative\tany\tmasculine\t7\t\u{1832}\u{1820}\u{1822}\n\
comitative\tany\tfeminine\t7\t\u{1832}\u{1821}\u{1822}\n\
directive\tvowel_or_diphthong\tmasculine\t8\t\u{1837}\u{1824}\u{182D}\u{1824}\n\
directive\tvowel_or_diphthong\tfeminine\t8\t\u{1837}\u{1826}\u{182D}\u{1821}\n\
directive\tconsonant\tmasculine\t8\t\u{1824}\u{1837}\u{1824}\u{182D}\u{1824}\n\
directive\tconsonant\tfeminine\t8\t\u{1826}\u{1837}\u{1826}\u{182D}\u{1821}\n";

// ---------------------------------------------------------------------
// Parsing the catalog
// ---------------------------------------------------------------------

/// The ending condition a catalog keyword names.
pub open spec fn ending_keyword(w: Seq<char>) -> Option<EndingCondition> {
    if w == "any"@ {
        Some(EndingCondition::Any)
    } else if w == "vowel_or_diphthong"@ {
        Some(EndingCondition::VowelOrDiphthong)
    } else if w == "consonant"@ {
        Some(EndingCondition::Consonant)
    } else if w == "consonant_na"@ {
        Some(EndingCondition::ConsonantNa)
    } else if w == "consonant_other"@ {
        Some(EndingCondition::ConsonantOther)
    } else if w == "vowel_or_soft_closed"@ {
        Some(EndingCondition::VowelOrSoftClosed)
    } else if w == "hard_closed"@ {
        Some(EndingCondition::HardClosed)
    } else {
        None
    }
}

/// The harmony requirement a catalog keyword names (`Some(None)` for
/// "any").
pub open spec fn harmony_keyword(w: Seq<char>) -> Option<Option<HarmonyClass>> {
    if w == "any"@ {
        Some(None)
    } else if w == "masculine"@ {
        Some(Some(HarmonyClass::Masculine))
    } else if w == "feminine"@ {
        Some(Some(HarmonyClass::Feminine))
    } else {
        None
    }
}

pub open spec fn is_ascii_digit(c: char) -> bool {
    48 <= c as u32 <= 57
}

pub open spec fn all_digits(s: Seq<char>) -> bool {
    forall|k: int| 0 <= k < s.len() ==> is_ascii_digit(#[trigger] s[k])
}

/// The decimal value of a digit string.
pub open spec fn decimal_value(s: Seq<char>) -> nat
    decreases s.len(),
{
    if s.len() == 0 {
        0
    } else {
        decimal_value(s.drop_last()) * 10 + ((s.last() as u32 - 48) as nat)
    }
}

/// `s` read as a `u8` the way `str::parse::<u8>` reads it: an optional
/// `+`, then one or more ASCII digits whose value fits in a byte.
pub open spec fn spec_parse_u8(s: Seq<char>) -> Option<u8> {
    let d = if s.len() > 0 && s[0] == '+' {
        s.drop_first()
    } else {
        s
    };
    if d.len() > 0 && all_digits(d) && decimal_value(d) <= 255 {
        Some(decimal_value(d) as u8)
    } else {
        None
    }
}

/// The rule one catalog line describes, if it is well formed: at least
/// five tab-separated fields, known keywords, a rank that is a byte.
pub open spec fn spec_parse_rule(line: Seq<char>) -> Option<RuleView> {
    let f = spec_split(line, '\t');
    if f.len() < 5 {
        None
    } else {
        match (ending_keyword(f[1]), harmony_keyword(f[2]), spec_parse_u8(f[3])) {
            (Some(e), Some(h), Some(r)) => Some((f[0], e, h, r, f[4])),
            _ => None,
        }
    }
}

/// The rules of `lines`, in order: blank and `#` lines skipped, lines
/// that do not parse dropped.
pub open spec fn rules_of_lines(lines: Seq<Seq<char>>) -> Seq<RuleView>
    decreases lines.len(),
{
    if lines.len() == 0 {
        Seq::empty()
    } else {
        let l = lines[0];
        let rest = rules_of_lines(lines.drop_first());
        if l.len() == 0 || l[0] == '#' {
            rest
        } else {
            match spec_parse_rule(l) {
                Some(r) => seq![r] + rest,
                None => rest,
            }
        }
    }
}

/// The rules of the catalog, in catalog order.
pub open spec fn catalog_rules() -> Seq<RuleView> {
    rules_of_lines(spec_lines(CATALOG@))
}

pub open spec fn rule_views(r: Seq<SuffixRule>) -> Seq<RuleView> {
    r.map_values(|x: SuffixRule| x@)
}

/// Whether `v[lo..hi]` spells `word`.
fn range_is(v: &Vec<char>, lo: usize, hi: usize, word: &str) -> (r: bool)
    requires
        lo <= hi <= v@.len(),
    ensures
        r == (v@.subrange(lo as int, hi as int) == word@),
{
    let w = chars_of(word);
    if hi - lo != w.len() {
        assert(v@.subrange(lo as int, hi as int).len() != word@.len());
        return false;
    }
    let mut k: usize = 0;
    while k < w.len()
        invariant
            hi - lo == w@.len(),
            lo <= hi <= v@.len(),
            w@ == word@,
            k <= w@.len(),
            forall|j: int| 0 <= j < k ==> v@[lo + j] == w@[j],
        decreases w@.len() - k,
    {
        if v[lo + k] != w[k] {
            assert(v@.subrange(lo as int, hi as int)[k as int] != word@[k as int]);
            return false;
        }
        k += 1;
    }
    assert(v@.subrange(lo as int, hi as int) =~= word@);
    true
}

fn parse_ending(v: &Vec<char>, lo: usize, hi: usize) -> (r: Option<EndingCondition>)
    requires
        lo <= hi <= v@.len(),
    ensures
        r == ending_keyword(v@.subrange(lo as int, hi as int)),
{
    if range_is(v, lo, hi, "any") {
        Some(EndingCondition::Any)
    } else if range_is(v, lo, hi, "vowel_or_diphthong") {
        Some(EndingCondition::VowelOrDiphthong)
    } else if range_is(v, lo, hi, "consonant") {
        Some(EndingCondition::Consonant)
    } else if range_is(v, lo, hi, "consonant_na") {
        Some(EndingCondition::ConsonantNa)
    } else if range_is(v, lo, hi, "consonant_other") {
        Some(EndingCondition::ConsonantOther)
    } else if range_is(v, lo, hi, "vowel_or_soft_closed") {
        Some(EndingCondition::VowelOrSoftClosed)
    } else if range_is(v, lo, hi, "hard_closed") {
        Some(EndingCondition::HardClosed)
    } else {
        None
    }
}

fn parse_harmony(v: &Vec<char>, lo: usize, hi: usize) -> (r: Option<Option<HarmonyClass>>)
    requires
        lo <= hi <= v@.len(),
    ensures
        r == harmony_keyword(v@.subrange(lo as int, hi as int)),
{
    if range_is(v, lo, hi, "any") {
        Some(None)
    } else if range_is(v, lo, hi, "masculine") {
        Some(Some(HarmonyClass::Masculine))
    } else if range_is(v, lo, hi, "feminine") {
        Some(Some(HarmonyClass::Feminine))
    } else {
        None
    }
}

/// The value of a digit string never drops as digits are appended.
proof fn lemma_decimal_value_grows(d: Seq<char>, j: int, k: int)
    requires
        all_digits(d),
        0 <= j <= k <= d.len(),
    ensures
        decimal_value(d.take(j)) <= decimal_value(d.take(k)),
    decreases k - j,
{
    if j < k {
        lemma_decimal_value_grows(d, j, k - 1);
        assert(d.take(k).drop_last() =~= d.take(k - 1));
        assert(is_ascii_digit(d[k - 1]));
    }
}

/// `v[lo..hi]` read as a `u8`, as [`spec_parse_u8`] describes.
fn parse_u8(v: &Vec<char>, lo: usize, hi: usize) -> (r: Option<u8>)
    requires
        lo <= hi <= v@.len(),
    ensures
        r == spec_parse_u8(v@.subrange(lo as int, hi as int)),
{
    let ghost s = v@.subrange(lo as int, hi as int);
    let start = if lo < hi && v[lo] == '+' {
        lo + 1
    } else {
        lo
    };
    let ghost d = v@.subrange(start as int, hi as int);
    assert(d =~= (if s.len() > 0 && s[0] == '+' {
        s.drop_first()
    } else {
        s
    }));
    if start == hi {
        return None;
    }
    let mut acc: u32 = 0;
    let mut i = start;
    assert(d.take(0) =~= Seq::<char>::empty());
    while i < hi
        invariant
            lo <= start <= i <= hi <= v@.len(),
            s == v@.subrange(lo as int, hi as int),
            d == v@.subrange(start as int, hi as int),
            d == (if s.len() > 0 && s[0] == '+' {
                s.drop_first()
            } else {
                s
            }),
            all_digits(d.take(i - start)),
            acc as nat == decimal_value(d.take(i - start)),
            acc <= 255,
        decreases hi - i,
    {
        let c = v[i];
        assert(d[i - start] == c);
        let code = c as u32;
        if !(48 <= code && code <= 57) {
            assert(!is_ascii_digit(d[i - start]));
            assert(!all_digits(d));
            assert(spec_parse_u8(s) is None);
            return None;
        }
        let digit = code - 48;
        let next = acc * 10 + digit;
        assert(d.take(i - start + 1).drop_last() =~= d.take(i - start));
        assert(d.take(i - start + 1).last() == c);
        assert(all_digits(d.take(i - start + 1))) by {
            assert forall|k: int| 0 <= k < i - start + 1 implies is_ascii_digit(#[trigger] d.take(i - start + 1)[k]) by {
                if k < i - start {
                    assert(d.take(i - start + 1)[k] == d.take(i - start)[k]);
                }
            }
        }
        assert(decimal_value(d.take(i - start + 1)) == next);
        if next > 255 {
            proof {
                if all_digits(d) {
                    lemma_decimal_value_grows(d, i - start + 1, d.len() as int);
                    assert(d.take(d.len() as int) =~= d);
                }
            }
            assert(spec_parse_u8(s) is None);
            return None;
        }
        acc = next;
        i += 1;
    }
    assert(d.take(hi - start) =~= d);
    Some(acc as u8)
}

/// Parse one catalog line, as [`spec_parse_rule`] describes.
fn parse_rule(line: &str) -> (r: Option<SuffixRule>)
    ensures
        match r {
            Some(rule) => spec_parse_rule(line@) == Some(rule@),
            None => spec_parse_rule(line@) is None,
        },
{
    let v = chars_of(line);
    let fields = split_bounds(&v, 0, v.len(), '\t');
    let ghost f = spec_split(line@, '\t');
    assert(v@.subrange(0, v@.len() as int) =~= line@);
    if fields.len() < 5 {
        return None;
    }
    let (c0, c1) = fields[0];
    let (e0, e1) = fields[1];
    let (h0, h1) = fields[2];
    let (r0, r1) = fields[3];
    let (f0, f1) = fields[4];
    assert(f[0] == v@.subrange(c0 as int, c1 as int));
    assert(f[1] == v@.subrange(e0 as int, e1 as int));
    assert(f[2] == v@.subrange(h0 as int, h1 as int));
    assert(f[3] == v@.subrange(r0 as int, r1 as int));
    assert(f[4] == v@.subrange(f0 as int, f1 as int));
    let ending = match parse_ending(&v, e0, e1) {
        Some(e) => e,
        None => {
            return None;
        },
    };
    let harmony = match parse_harmony(&v, h0, h1) {
        Some(h) => h,
        None => {
            return None;
        },
    };
    let rank = match parse_u8(&v, r0, r1) {
        Some(n) => n,
        None => {
            return None;
        },
    };
    let case = string_from_range(&v, c0, c1);
    let form = string_from_range(&v, f0, f1);
    Some(SuffixRule { case, ending, harmony, rank, form })
}

/// The catalog's rules, parsed.
fn rules() -> (r: Vec<SuffixRule>)
    ensures
        rule_views(r@) == catalog_rules(),
{
    let v = chars_of(CATALOG);
    let bounds = line_bounds(&v);
    let ghost lines = range_views(v@, bounds@);
    let mut out: Vec<SuffixRule> = Vec::new();
    let mut k: usize = 0;
    assert(lines.skip(0) =~= lines);
    assert(rule_views(out@) =~= Seq::<RuleView>::empty());
    assert(Seq::<RuleView>::empty() + rules_of_lines(lines) =~= rules_of_lines(lines));
    while k < bounds.len()
        invariant
            lines == range_views(v@, bounds@),
            lines == spec_lines(CATALOG@),
            crate::text::ranges_within(bounds@, 0, v@.len() as int),
            k <= bounds@.len(),
            rule_views(out@) + rules_of_lines(lines.skip(k as int)) == catalog_rules(),
        decreases bounds@.len() - k,
    {
        let (a, b) = bounds[k];
        let ghost l = lines[k as int];
        let ghost before = rule_views(out@);
        assert(bounds@[k as int] == (a, b));
        assert(l == v@.subrange(a as int, b as int));
        assert(lines.skip(k as int).drop_first() =~= lines.skip(k + 1));
        assert(lines.skip(k as int)[0] == l);
        if a < b && v[a] != '#' {
            let line = string_from_range(&v, a, b);
            match parse_rule(line.as_str()) {
                Some(rule) => {
                    let ghost rv = rule@;
                    out.push(rule);
                    assert(rule_views(out@) =~= before.push(rv));
                    assert(before.push(rv) + rules_of_lines(lines.skip(k + 1)) =~= before + (seq![rv]
                        + rules_of_lines(lines.skip(k + 1))));
                },
                None => {},
            }
        }
        k += 1;
    }
    assert(lines.skip(k as int) =~= Seq::<Seq<char>>::empty());
    assert(rule_views(out@) + Seq::<RuleView>::empty() =~= rule_views(out@));
    out
}

// ---------------------------------------------------------------------
// Classifying the stem
// ---------------------------------------------------------------------

pub open spec fn is_masculine_vowel(c: char) -> bool {
    c == '\u{1820}' || c == '\u{1823}' || c == '\u{1824}'
}

pub open spec fn is_feminine_vowel(c: char) -> bool {
    c == '\u{1821}' || c == '\u{1825}' || c == '\u{1826}'
}

/// The class of the first non-neutral vowel of `s`, if any.
pub open spec fn first_harmony_vowel(s: Seq<char>) -> Option<HarmonyClass>
    decreases s.len(),
{
    if s.len() == 0 {
        None
    } else if is_masculine_vowel(s[0]) {
        Some(HarmonyClass::Masculine)
    } else if is_feminine_vowel(s[0]) {
        Some(HarmonyClass::Feminine)
    } else {
        first_harmony_vowel(s.drop_first())
    }
}

/// Vowel harmony of a typed Bichig stem: the first non-neutral vowel
/// decides; a stem whose only vowel is the neutral i is feminine; a stem
/// without vowels has none.
pub open spec fn spec_classify_harmony(s: Seq<char>) -> Option<HarmonyClass> {
    match first_harmony_vowel(s) {
        Some(h) => Some(h),
        None => if s.contains('\u{1822}') {
            Some(HarmonyClass::Feminine)
        } else {
            None
        },
    }
}

/// The vowel harmony of a stem as typed in Mongolian script: its first
/// vowel other than i decides, and a stem whose vowels are all i is
/// feminine. Only the typed characters are looked at, never a
/// dictionary spelling, since typing may use another valid encoding of
/// the same word.
pub fn classify_harmony(stem: &str) -> (r: Option<HarmonyClass>)
    ensures
        r == spec_classify_harmony(stem@),
{
    let v = chars_of(stem);
    let mut has_neutral_i = false;
    let mut i: usize = 0;
    assert(v@.skip(0) =~= v@);
    while i < v.len()
        invariant
            v@ == stem@,
            i <= v@.len(),
            first_harmony_vowel(v@.skip(i as int)) == first_harmony_vowel(v@),
            has_neutral_i == (exists|k: int| 0 <= k < i && v@[k] == '\u{1822}'),
        decreases v@.len() - i,
    {
        let c = v[i];
        assert(v@.skip(i as int)[0] == c);
        assert(v@.skip(i as int).drop_first() =~= v@.skip(i + 1));
        if c == '\u{1820}' || c == '\u{1823}' || c == '\u{1824}' {
            return Some(HarmonyClass::Masculine);
        }
        if c == '\u{1821}' || c == '\u{1825}' || c == '\u{1826}' {
            return Some(HarmonyClass::Feminine);
        }
        if c == '\u{1822}' {
            has_neutral_i = true;
        }
        i += 1;
    }
    assert(v@.skip(i as int).len() == 0);
    if has_neutral_i {
        assert(v@.contains('\u{1822}'));
        Some(HarmonyClass::Feminine)
    } else {
        assert(!v@.contains('\u{1822}'));
        None
    }
}

/// The last letter of `s` that is not a format control, if any.
pub open spec fn last_letter(s: Seq<char>) -> Option<char>
    decreases s.len(),
{
    if s.len() == 0 {
        None
    } else if spec_is_format_control(s.last()) {
        last_letter(s.drop_last())
    } else {
        Some(s.last())
    }
}

/// How a stem ending in letter `c` ends.
pub open spec fn ending_of_letter(c: char) -> StemEnding {
    if (0x1820 <= c as u32 <= 0x1826) || c == '\u{1836}' {
        StemEnding::VowelOrDiphthong
    } else if c == '\u{1828}' {
        StemEnding::ConsonantNa
    } else if c == '\u{182E}' || c == '\u{182F}' || c == '\u{1829}' || c == '\u{1838}' {
        StemEnding::SoftClosed
    } else if c == '\u{182A}' || c == '\u{182C}' || c == '\u{182D}' || c == '\u{1837}' || c
        == '\u{1830}' || c == '\u{1832}' || c == '\u{1833}' {
        StemEnding::HardClosed
    } else {
        StemEnding::ConsonantOther
    }
}

pub open spec fn spec_classify_ending(s: Seq<char>) -> Option<StemEnding> {
    match last_letter(s) {
        Some(c) => Some(ending_of_letter(c)),
        None => None,
    }
}

/// How a stem ending in letter `c` ends.
fn ending_of(c: char) -> (r: StemEnding)
    ensures
        r == ending_of_letter(c),
{
    let code = c as u32;
    if (0x1820 <= code && code <= 0x1826) || c == '\u{1836}' {
        StemEnding::VowelOrDiphthong
    } else if c == '\u{1828}' {
        StemEnding::ConsonantNa
    } else if c == '\u{182E}' || c == '\u{182F}' || c == '\u{1829}' || c == '\u{1838}' {
        StemEnding::SoftClosed
    } else if c == '\u{182A}' || c == '\u{182C}' || c == '\u{182D}' || c == '\u{1837}' || c
        == '\u{1830}' || c == '\u{1832}' || c == '\u{1833}' {
        StemEnding::HardClosed
    } else {
        StemEnding::ConsonantOther
    }
}

/// How the stem ends, judged by its last letter that is not a format
/// control; `None` when it has no such letter.
pub fn classify_ending(stem: &str) -> (r: Option<StemEnding>)
    ensures
        r == spec_classify_ending(stem@),
{
    let v = chars_of(stem);
    let mut n = v.len();
    assert(v@.take(n as int) =~= v@);
    while n > 0 && is_format_control(v[n - 1])
        invariant
            v@ == stem@,
            n <= v@.len(),
            last_letter(v@.take(n as int)) == last_letter(v@),
        decreases n,
    {
        assert(v@.take(n as int).drop_last() =~= v@.take(n - 1));
        n -= 1;
    }
    if n == 0 {
        assert(v@.take(0) =~= Seq::<char>::empty());
        return None;
    }
    let c = v[n - 1];
    assert(v@.take(n as int).last() == c);
    assert(!spec_is_format_control(c));
    assert(last_letter(v@.take(n as int)) == Some(c));
    let e = ending_of(c);
    assert(spec_classify_ending(stem@) == Some(ending_of_letter(c)));
    Some(e)
}

pub open spec fn spec_ending_matches(condition: EndingCondition, ending: StemEnding) -> bool {
    let vowel = ending == StemEnding::VowelOrDiphthong;
    let na = ending == StemEnding::ConsonantNa;
    let soft = ending == StemEnding::SoftClosed;
    let hard = ending == StemEnding::HardClosed;
    let other = ending == StemEnding::ConsonantOther;
    match condition {
        EndingCondition::Any => true,
        EndingCondition::VowelOrDiphthong => vowel,
        EndingCondition::Consonant => !vowel,
        EndingCondition::ConsonantNa => na,
        EndingCondition::ConsonantOther => soft || hard || other,
        EndingCondition::VowelOrSoftClosed => vowel || soft || na,
        EndingCondition::HardClosed => hard,
    }
}

/// Whether a catalog ending condition admits a stem ending.
pub fn ending_matches(condition: EndingCondition, ending: StemEnding) -> (r: bool)
    ensures
        r == spec_ending_matches(condition, ending),
{
    let vowel = ending == StemEnding::VowelOrDiphthong;
    let na = ending == StemEnding::ConsonantNa;
    let soft = ending == StemEnding::SoftClosed;
    let hard = ending == StemEnding::HardClosed;
    let other = ending == StemEnding::ConsonantOther;
    match condition {
        EndingCondition::Any => true,
        EndingCondition::VowelOrDiphthong => vowel,
        EndingCondition::Consonant => !vowel,
        EndingCondition::ConsonantNa => na,
        EndingCondition::ConsonantOther => soft || hard || other,
        EndingCondition::VowelOrSoftClosed => vowel || soft || na,
        EndingCondition::HardClosed => hard,
    }
}

// ---------------------------------------------------------------------
// Suggesting
// ---------------------------------------------------------------------

/// Whether a rule applies to a stem of harmony `h` ending as `e`.
pub open spec fn rule_applies(r: RuleView, h: HarmonyClass, e: StemEnding) -> bool {
    spec_ending_matches(r.1, e) && (r.2 is None || r.2 == Some(h))
}

pub open spec fn applies_at(rules: Seq<RuleView>, h: HarmonyClass, e: StemEnding) -> spec_fn(usize) -> bool {
    |i: usize| rule_applies(rules[i as int], h, e)
}

/// Positions of the rules that apply, in catalog order.
pub open spec fn applicable(rules: Seq<RuleView>, h: HarmonyClass, e: StemEnding) -> Seq<usize> {
    Seq::new(rules.len(), |i: int| i as usize).filter(applies_at(rules, h, e))
}

/// The UTF-8 bytes of the case name of rule `i`.
pub open spec fn case_bytes(rules: Seq<RuleView>, i: usize) -> Seq<u8> {
    encode_utf8(rules[i as int].0)
}

/// Rules ordered by rank, then by case name (byte-wise), then by
/// position.
pub open spec fn suffix_order(rules: Seq<RuleView>) -> spec_fn(usize, usize) -> bool {
    |a: usize, b: usize|
        rules[a as int].3 < rules[b as int].3 || (rules[a as int].3 == rules[b as int].3 && (lex_lt(
            case_bytes(rules, a),
            case_bytes(rules, b),
        ) || (case_bytes(rules, a) == case_bytes(rules, b) && a <= b)))
}

/// The order suggestions are sorted in (rank, then case name, then catalog
/// position) is a total order, so the sort is well defined.
pub proof fn lemma_suffix_order_is_total(rules: Seq<RuleView>)
    ensures
        total_ordering(suffix_order(rules)),
{
    let r = suffix_order(rules);
    assert forall|x: usize| #[trigger] r(x, x) by {
        lemma_lex_lt_irreflexive(case_bytes(rules, x));
    }
    assert forall|x: usize, y: usize| #[trigger] r(x, y) && #[trigger] r(y, x) implies x == y by {
        lemma_lex_lt_asymmetric(case_bytes(rules, x), case_bytes(rules, y));
        lemma_lex_lt_irreflexive(case_bytes(rules, x));
    }
    assert forall|x: usize, y: usize, z: usize| #[trigger] r(x, y) && #[trigger] r(y, z) implies r(
        x,
        z,
    ) by {
        let (cx, cy, cz) = (case_bytes(rules, x), case_bytes(rules, y), case_bytes(rules, z));
        if lex_lt(cx, cy) && lex_lt(cy, cz) {
            lemma_lex_lt_transitive(cx, cy, cz);
        }
    }
    assert forall|x: usize, y: usize| #[trigger] r(x, y) || #[trigger] r(y, x) by {
        lemma_lex_lt_total(case_bytes(rules, x), case_bytes(rules, y));
    }
}

/// The suggestions for a stem as `(case, form)` pairs: nothing when the
/// stem has no harmony class or no letter; otherwise every rule that
/// applies, ordered by [`suffix_order`].
pub open spec fn spec_suggest_case_suffixes(stem: Seq<char>) -> Seq<(Seq<char>, Seq<char>)> {
    match (spec_classify_harmony(stem), spec_classify_ending(stem)) {
        (Some(h), Some(e)) => {
            let rules = catalog_rules();
            applicable(rules, h, e).sort_by(suffix_order(rules)).map_values(
                |i: usize| (rules[i as int].0, rules[i as int].4),
            )
        },
        _ => Seq::empty(),
    }
}

pub open spec fn suggestion_views(v: Seq<CaseSuffixSuggestion>) -> Seq<(Seq<char>, Seq<char>)> {
    v.map_values(|s: CaseSuffixSuggestion| (s.case@, s.form@))
}

fn suffix_order_le(rules: &Vec<SuffixRule>, a: usize, b: usize) -> (r: bool)
    requires
        a < rules@.len(),
        b < rules@.len(),
    ensures
        r == suffix_order(rule_views(rules@))(a, b),
{
    let ra = rules[a].rank;
    let rb = rules[b].rank;
    if ra != rb {
        return ra < rb;
    }
    let c = compare_bytes(rules[a].case.as_str().as_bytes(), rules[b].case.as_str().as_bytes());
    c < 0 || (c == 0 && a <= b)
}

/// Stable insertion sort of rule positions by [`suffix_order`].
fn sort_matches(v: &Vec<usize>, rules: &Vec<SuffixRule>) -> (r: Vec<usize>)
    requires
        forall|k: int| 0 <= k < v@.len() ==> (#[trigger] v@[k]) < rules@.len(),
    ensures
        sorted_by(r@, suffix_order(rule_views(rules@))),
        r@.to_multiset() == v@.to_multiset(),
        forall|k: int| 0 <= k < r@.len() ==> (#[trigger] r@[k]) < rules@.len(),
{
    broadcast use vstd::seq_lib::group_to_multiset_ensures;
    let ghost ord = suffix_order(rule_views(rules@));
    proof {
        lemma_suffix_order_is_total(rule_views(rules@));
    }
    let mut out: Vec<usize> = Vec::new();
    let mut i: usize = 0;
    assert(v@.take(0) =~= Seq::<usize>::empty());
    while i < v.len()
        invariant
            ord == suffix_order(rule_views(rules@)),
            total_ordering(ord),
            i <= v@.len(),
            forall|k: int| 0 <= k < v@.len() ==> (#[trigger] v@[k]) < rules@.len(),
            forall|k: int| 0 <= k < out@.len() ==> (#[trigger] out@[k]) < rules@.len(),
            sorted_by(out@, ord),
            out@.to_multiset() == v@.take(i as int).to_multiset(),
        decreases v@.len() - i,
    {
        let x = v[i];
        let mut p: usize = 0;
        while p < out.len() && !suffix_order_le(rules, x, out[p])
            invariant
                ord == suffix_order(rule_views(rules@)),
                total_ordering(ord),
                x < rules@.len(),
                forall|k: int| 0 <= k < out@.len() ==> (#[trigger] out@[k]) < rules@.len(),
                p <= out@.len(),
                forall|k: int| 0 <= k < p ==> ord(#[trigger] out@[k], x),
            decreases out@.len() - p,
        {
            assert(!ord(x, out@[p as int]));
            p += 1;
        }
        let ghost old_out = out@;
        out.insert(p, x);
        proof {
            vstd::seq_lib::to_multiset_insert(old_out, p as int, x);
            assert(v@.take(i + 1) =~= v@.take(i as int).push(x));
            vstd::seq_lib::to_multiset_build(v@.take(i as int), x);
            assert forall|a: int, b: int| 0 <= a < b < out@.len() implies #[trigger] ord(out@[a], out@[b]) by {
                if b < p {
                    assert(ord(old_out[a], old_out[b]));
                } else if b == p {
                } else if a < p {
                    assert(ord(old_out[a], x));
                    assert(ord(x, old_out[p as int]));
                    assert(ord(old_out[p as int], old_out[b - 1]) || p == b - 1);
                } else if a == p {
                    assert(ord(x, old_out[p as int]));
                    assert(ord(old_out[p as int], old_out[b - 1]) || p == b - 1);
                } else {
                    assert(ord(old_out[a - 1], old_out[b - 1]));
                }
            }
            assert forall|k: int| 0 <= k < out@.len() implies (#[trigger] out@[k]) < rules@.len() by {
                if k < p {
                    assert(out@[k] == old_out[k]);
                } else if k > p {
                    assert(out@[k] == old_out[k - 1]);
                }
            }
        }
        i += 1;
    }
    assert(v@.take(i as int) =~= v@);
    out
}

/// Every case ending the typed stem can take, in case order. Whoever
/// inserts an ending puts U+202F between the stem and it.
pub fn suggest_case_suffixes(stem_bichig: &str) -> (r: Vec<CaseSuffixSuggestion>)
    ensures
        suggestion_views(r@) == spec_suggest_case_suffixes(stem_bichig@),
{
    let harmony = match classify_harmony(stem_bichig) {
        Some(h) => h,
        None => {
            let none: Vec<CaseSuffixSuggestion> = Vec::new();
            assert(suggestion_views(none@) =~= Seq::<(Seq<char>, Seq<char>)>::empty());
            return none;
        },
    };
    let ending = match classify_ending(stem_bichig) {
        Some(e) => e,
        None => {
            let none: Vec<CaseSuffixSuggestion> = Vec::new();
            assert(suggestion_views(none@) =~= Seq::<(Seq<char>, Seq<char>)>::empty());
            return none;
        },
    };
    let all = rules();
    let ghost rs = rule_views(all@);
    let ghost pred = applies_at(rs, harmony, ending);
    let mut positions: Vec<usize> = Vec::new();
    let mut i: usize = 0;
    assert(Seq::new(0, |k: int| k as usize) =~= Seq::<usize>::empty());
    assert(Seq::<usize>::empty().filter(pred) =~= Seq::<usize>::empty()) by {
        reveal(Seq::filter);
    }
    while i < all.len()
        invariant
            rs == rule_views(all@),
            pred == applies_at(rs, harmony, ending),
            i <= all@.len(),
            positions@ == Seq::new(i as nat, |k: int| k as usize).filter(pred),
            forall|k: int| 0 <= k < positions@.len() ==> (#[trigger] positions@[k]) < i,
        decreases all@.len() - i,
    {
        let ghost prefix = Seq::new(i as nat, |k: int| k as usize);
        assert(Seq::new((i + 1) as nat, |k: int| k as usize) =~= prefix.push(i));
        proof {
            prefix.lemma_filter_push(i, pred);
        }
        let applies = ending_matches(all[i].ending, ending) && match all[i].harmony {
            None => true,
            Some(required) => required == harmony,
        };
        assert(applies == pred(i));
        if applies {
            positions.push(i);
        }
        i += 1;
    }
    assert(Seq::new(all@.len(), |k: int| k as usize) =~= Seq::new(rs.len(), |k: int| k as usize));
    let sorted = sort_matches(&positions, &all);
    proof {
        lemma_suffix_order_is_total(rs);
        positions@.lemma_sort_by_ensures(suffix_order(rs));
        vstd::seq_lib::lemma_sorted_unique(sorted@, positions@.sort_by(suffix_order(rs)), suffix_order(rs));
    }
    let mut out: Vec<CaseSuffixSuggestion> = Vec::new();
    let mut k: usize = 0;
    while k < sorted.len()
        invariant
            rs == rule_views(all@),
            forall|j: int| 0 <= j < sorted@.len() ==> (#[trigger] sorted@[j]) < all@.len(),
            k <= sorted@.len(),
            suggestion_views(out@) == sorted@.take(k as int).map_values(
                |j: usize| (rs[j as int].0, rs[j as int].4),
            ),
        decreases sorted@.len() - k,
    {
        let j = sorted[k];
        let case = all[j].case.clone();
        let form = all[j].form.clone();
        let ghost before = suggestion_views(out@);
        out.push(CaseSuffixSuggestion { case, form });
        assert(sorted@.take(k + 1) =~= sorted@.take(k as int).push(j));
        assert(suggestion_views(out@) =~= before.push((rs[j as int].0, rs[j as int].4)));
        assert(sorted@.take(k + 1).map_values(|j: usize| (rs[j as int].0, rs[j as int].4))
            =~= sorted@.take(k as int).map_values(|j: usize| (rs[j as int].0, rs[j as int].4)).push(
            (rs[j as int].0, rs[j as int].4),
        ));
        k += 1;
    }
    assert(sorted@.take(k as int) =~= sorted@);
    out
}


/// What a filter keeps was in the sequence.
proof fn lemma_filter_keeps_members(s: Seq<usize>, pred: spec_fn(usize) -> bool)
    ensures
        forall|x: usize| #[trigger] s.filter(pred).contains(x) ==> s.contains(x),
    decreases s.len(),
{
    if s.len() == 0 {
        assert(s.filter(pred) =~= Seq::<usize>::empty()) by {
            reveal(Seq::filter);
        }
    } else {
        let init = s.drop_last();
        lemma_filter_keeps_members(init, pred);
        assert(init.push(s.last()) =~= s);
        init.lemma_filter_push(s.last(), pred);
        assert forall|x: usize| #[trigger] s.filter(pred).contains(x) implies s.contains(x) by {
            let f = s.filter(pred);
            let j = choose|j: int| 0 <= j < f.len() && f[j] == x;
            if pred(s.last()) && j == f.len() - 1 {
                assert(s[s.len() - 1] == x);
            } else {
                assert(init.filter(pred)[j] == x);
                assert(init.filter(pred).contains(x));
                let m = choose|m: int| 0 <= m < init.len() && init[m] == x;
                assert(s[m] == x);
            }
        }
    }
}

/// Whether `(case, form)` is the case and form of a catalog rule that
/// applies to stems of harmony `h` ending as `e`.
pub open spec fn is_applicable_suffix(x: (Seq<char>, Seq<char>), h: HarmonyClass, e: StemEnding) -> bool {
    exists|i: int|
        0 <= i < catalog_rules().len() && rule_applies(#[trigger] catalog_rules()[i], h, e) && x == (
            catalog_rules()[i].0,
            catalog_rules()[i].4,
        )
}

/// The suggestions for a stem of harmony class `h` whose final letter
/// ends it as `e` are exactly the catalog rules that apply to it: every
/// suggestion is such a rule's `(case, form)`, and every such rule is
/// suggested.
pub proof fn lemma_suggestions_are_the_applicable_rules(stem: Seq<char>, h: HarmonyClass, e: StemEnding)
    requires
        catalog_rules().len() <= usize::MAX,
        spec_classify_harmony(stem) == Some(h),
        spec_classify_ending(stem) == Some(e),
    ensures
        forall|k: int|
            0 <= k < spec_suggest_case_suffixes(stem).len() ==> is_applicable_suffix(
                #[trigger] spec_suggest_case_suffixes(stem)[k],
                h,
                e,
            ),
        forall|i: int|
            0 <= i < catalog_rules().len() && rule_applies(#[trigger] catalog_rules()[i], h, e)
                ==> spec_suggest_case_suffixes(stem).contains((catalog_rules()[i].0, catalog_rules()[i].4)),
{
    broadcast use vstd::seq_lib::group_to_multiset_ensures;
    let rules = catalog_rules();
    let r = spec_suggest_case_suffixes(stem);
    let ids = Seq::new(rules.len(), |i: int| i as usize);
    let pred = applies_at(rules, h, e);
    let pos = applicable(rules, h, e);
    ids.filter_lemma(pred);
    lemma_filter_keeps_members(ids, pred);
    lemma_suffix_order_is_total(rules);
    pos.lemma_sort_by_ensures(suffix_order(rules));
    let sorted = pos.sort_by(suffix_order(rules));
    let f = |i: usize| (rules[i as int].0, rules[i as int].4);
    assert(r == sorted.map_values(f));
    assert forall|k: int| 0 <= k < spec_suggest_case_suffixes(stem).len() implies is_applicable_suffix(
        #[trigger] spec_suggest_case_suffixes(stem)[k],
        h,
        e,
    ) by {
        let p = sorted[k];
        assert(sorted.contains(p));
        assert(pos.contains(p));
        let a = choose|a: int| 0 <= a < pos.len() && pos[a] == p;
        assert(pred(pos[a]));
        assert(ids.contains(p));
        let b = choose|b: int| 0 <= b < ids.len() && ids[b] == p;
        assert(rule_applies(rules[p as int], h, e));
        assert(r[k] == f(p));
        assert(0 <= p < rules.len());
        assert(rule_applies(catalog_rules()[p as int], h, e) && spec_suggest_case_suffixes(stem)[k] == (
            catalog_rules()[p as int].0,
            catalog_rules()[p as int].4,
        ));
    }
    assert forall|i: int| 0 <= i < rules.len() && rule_applies(#[trigger] rules[i], h, e) implies r.contains(
        (rules[i].0, rules[i].4),
    ) by {
        assert(ids[i] == i as usize);
        assert(pred(ids[i]));
        assert(pos.contains(i as usize));
        assert(pos.to_multiset().count(i as usize) > 0);
        assert(sorted.to_multiset().count(i as usize) > 0);
        assert(sorted.contains(i as usize));
        let c = choose|c: int| 0 <= c < sorted.len() && sorted[c] == i as usize;
        assert(r[c] == f(i as usize));
    }
}

/// A stem without a vowel, or without a letter, gets no suggestion.
pub proof fn lemma_no_suggestions_without_harmony_or_letter(stem: Seq<char>)
    requires
        spec_classify_harmony(stem) is None || spec_classify_ending(stem) is None,
    ensures
        spec_suggest_case_suffixes(stem).len() == 0,
{
}

/// Whether `c` is one of the Mongolian format controls: the free
/// variation selectors U+180B..=U+180F and the narrow no-break space
/// U+202F.
pub open spec fn is_listed_format_control(c: char) -> bool {
    ('\u{180B}' <= c && c <= '\u{180F}') || c == '\u{202F}'
}

/// Format controls after the last letter do not change which letter is
/// last.
proof fn lemma_last_letter_skips_controls(s: Seq<char>, tail: Seq<char>)
    requires
        forall|j: int| 0 <= j < tail.len() ==> is_listed_format_control(#[trigger] tail[j]),
    ensures
        last_letter(s + tail) == last_letter(s),
    decreases tail.len(),
{
    if tail.len() > 0 {
        let t = tail.drop_last();
        assert((s + tail).drop_last() =~= s + t);
        assert((s + tail).last() == tail.last());
        assert(is_listed_format_control(tail[tail.len() - 1]));
        assert forall|j: int| 0 <= j < t.len() implies is_listed_format_control(#[trigger] t[j]) by {
            assert(t[j] == tail[j]);
        }
        lemma_last_letter_skips_controls(s, t);
    }
}

/// How a stem ends is read off its last letter, format controls after it
/// ignored: the vowels a, e, i, o, u, ö, ü (U+1820..=U+1826) and ya
/// (U+1836) end it in a vowel or diphthong; na (U+1828) in na; ma, la,
/// ang, wa (U+182E, U+182F, U+1829, U+1838) softly closed; ba, qa, ga,
/// ra, sa, ta, da (U+182A, U+182C, U+182D, U+1837, U+1830, U+1832,
/// U+1833) hard closed; any other letter in another consonant.
pub proof fn lemma_stem_ending_by_last_letter(stem: Seq<char>, c: char, tail: Seq<char>)
    requires
        !is_listed_format_control(c),
        forall|j: int| 0 <= j < tail.len() ==> is_listed_format_control(#[trigger] tail[j]),
    ensures
        ('\u{1820}' <= c && c <= '\u{1826}') || c == '\u{1836}' ==> spec_classify_ending(
            stem.push(c) + tail,
        ) == Some(StemEnding::VowelOrDiphthong),
        c == '\u{1828}' ==> spec_classify_ending(stem.push(c) + tail) == Some(StemEnding::ConsonantNa),
        c == '\u{182E}' || c == '\u{182F}' || c == '\u{1829}' || c == '\u{1838}' ==> spec_classify_ending(
            stem.push(c) + tail,
        ) == Some(StemEnding::SoftClosed),
        c == '\u{182A}' || c == '\u{182C}' || c == '\u{182D}' || c == '\u{1837}' || c == '\u{1830}' || c
            == '\u{1832}' || c == '\u{1833}' ==> spec_classify_ending(stem.push(c) + tail) == Some(
            StemEnding::HardClosed,
        ),
        !(('\u{1820}' <= c && c <= '\u{1826}') || c == '\u{1836}' || c == '\u{1828}' || c == '\u{182E}' || c
            == '\u{182F}' || c == '\u{1829}' || c == '\u{1838}' || c == '\u{182A}' || c == '\u{182C}' || c
            == '\u{182D}' || c == '\u{1837}' || c == '\u{1830}' || c == '\u{1832}' || c == '\u{1833}')
            ==> spec_classify_ending(stem.push(c) + tail) == Some(StemEnding::ConsonantOther),
{
    lemma_last_letter_skips_controls(stem.push(c), tail);
    assert(stem.push(c).drop_last() =~= stem);
    assert(last_letter(stem.push(c)) == Some(c));
}

/// A stem of format controls alone has no ending.
pub proof fn lemma_no_letter_no_ending(tail: Seq<char>)
    requires
        forall|j: int| 0 <= j < tail.len() ==> is_listed_format_control(#[trigger] tail[j]),
    ensures
        spec_classify_ending(tail) is None,
{
    lemma_last_letter_skips_controls(Seq::empty(), tail);
    assert(Seq::<char>::empty() + tail =~= tail);
}

/// Whether `c` is one of the six vowels that decide harmony: a, o, u
/// (U+1820, U+1823, U+1824) or e, ö, ü (U+1821, U+1825, U+1826).
pub open spec fn is_deciding_vowel(c: char) -> bool {
    c == '\u{1820}' || c == '\u{1823}' || c == '\u{1824}' || c == '\u{1821}' || c == '\u{1825}' || c
        == '\u{1826}'
}

/// Characters that decide nothing in front of the rest leave the first
/// deciding vowel as it was.
proof fn lemma_first_vowel_skips(pre: Seq<char>, rest: Seq<char>)
    requires
        forall|j: int| 0 <= j < pre.len() ==> !is_deciding_vowel(#[trigger] pre[j]),
    ensures
        first_harmony_vowel(pre + rest) == first_harmony_vowel(rest),
    decreases pre.len(),
{
    if pre.len() > 0 {
        assert((pre + rest)[0] == pre[0]);
        assert(!is_deciding_vowel(pre[0]));
        assert((pre + rest).drop_first() =~= pre.drop_first() + rest);
        assert forall|j: int| 0 <= j < pre.drop_first().len() implies !is_deciding_vowel(
            #[trigger] pre.drop_first()[j],
        ) by {
            assert(pre.drop_first()[j] == pre[j + 1]);
        }
        lemma_first_vowel_skips(pre.drop_first(), rest);
    }
}

/// Harmony is decided by the first of the vowels a, o, u (masculine) and
/// e, ö, ü (feminine) in the stem, whatever comes before it or after it.
pub proof fn lemma_harmony_by_first_vowel(pre: Seq<char>, c: char, post: Seq<char>)
    requires
        forall|j: int| 0 <= j < pre.len() ==> !is_deciding_vowel(#[trigger] pre[j]),
    ensures
        c == '\u{1820}' || c == '\u{1823}' || c == '\u{1824}' ==> spec_classify_harmony(pre.push(c) + post)
            == Some(HarmonyClass::Masculine),
        c == '\u{1821}' || c == '\u{1825}' || c == '\u{1826}' ==> spec_classify_harmony(pre.push(c) + post)
            == Some(HarmonyClass::Feminine),
{
    let rest = seq![c] + post;
    assert(pre.push(c) + post =~= pre + rest);
    lemma_first_vowel_skips(pre, rest);
    assert(rest[0] == c);
}

/// A stem with none of those six vowels is feminine when it has the
/// neutral i (U+1822), and has no harmony otherwise.
pub proof fn lemma_harmony_without_deciding_vowel(stem: Seq<char>)
    requires
        forall|j: int| 0 <= j < stem.len() ==> !is_deciding_vowel(#[trigger] stem[j]),
    ensures
        spec_classify_harmony(stem) == (if stem.contains('\u{1822}') {
            Some(HarmonyClass::Feminine)
        } else {
            None
        }),
{
    lemma_first_vowel_skips(stem, Seq::empty());
    assert(stem + Seq::<char>::empty() =~= stem);
}

} // verus!
