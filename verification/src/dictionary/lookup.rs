//! Cyrillic -> Traditional Mongolian dictionary.
//!
//! Parsed from tab-separated text: one `cyrillic<TAB>mongolian` pair per
//! line. Keys are the Cyrillic column, trimmed and lower-cased; each key
//! maps to every Mongolian variant given for it, in file order.
//! Single-word entries (neither column holding whitespace) also feed
//! two prefix indices for live word suggestions.

use vstd::prelude::*;
use vstd::hash_map::StringHashMap;
use vstd::relations::sorted_by;
use vstd::utf8::encode_utf8;
use crate::dictionary::byte_order::{
    bytes_start_with, candidate_order, count_keys_before, count_prefixed, key_order,
    lemma_count_prefixed_at_least, lemma_count_prefixed_unique,
    lemma_key_order_is_total, lemma_candidate_order_is_total, partition_point,
    sort_by_key_bytes, sort_candidates,
};
use crate::editor_core::format_control::{is_format_control, spec_is_format_control};
use crate::editor_core::word_boundary::Script;
use crate::text::{
    char_is_whitespace, chars_of, contains_whitespace, views, first_index_of, has_whitespace, spec_lines, spec_trim,
    str_to_lowercase, string_from_chars, string_from_range, to_lowercase, trim_range,
    lemma_first_index_of, lemma_first_index_of_unique, strip_cr,
};

verus! {

/// The `(key, value)` pair one TSV line contributes, if any: blank
/// lines, `#` comments, lines without a tab and lines with an empty
/// column contribute nothing. The key is trimmed and lower-cased; the
/// value is trimmed.
pub open spec fn spec_parse_line(line: Seq<char>) -> Option<(Seq<char>, Seq<char>)> {
    if line.len() == 0 || line[0] == '#' {
        None
    } else {
        let t = first_index_of(line, '\t');
        if t >= line.len() {
            None
        } else {
            let cyrillic = spec_trim(line.take(t));
            let mongolian = spec_trim(line.skip(t + 1));
            if cyrillic.len() == 0 || mongolian.len() == 0 {
                None
            } else {
                Some((str_to_lowercase(cyrillic), mongolian))
            }
        }
    }
}

/// The pairs contributed by `lines`, in order.
pub open spec fn pairs_of_lines(lines: Seq<Seq<char>>) -> Seq<(Seq<char>, Seq<char>)>
    decreases lines.len(),
{
    if lines.len() == 0 {
        Seq::empty()
    } else {
        match spec_parse_line(lines[0]) {
            Some(p) => seq![p] + pairs_of_lines(lines.drop_first()),
            None => pairs_of_lines(lines.drop_first()),
        }
    }
}

/// Every `(key, value)` pair of a TSV text, in file order.
pub open spec fn spec_tsv_pairs(text: Seq<char>) -> Seq<(Seq<char>, Seq<char>)> {
    pairs_of_lines(spec_lines(text))
}

/// Groups after adding one pair: appended to its key's group, or a new
/// group for a new key.
pub open spec fn add_pair(
    groups: Seq<(Seq<char>, Seq<Seq<char>>)>,
    p: (Seq<char>, Seq<char>),
) -> Seq<(Seq<char>, Seq<Seq<char>>)> {
    if exists|i: int| 0 <= i < groups.len() && (#[trigger] groups[i]).0 == p.0 {
        let i = choose|i: int| 0 <= i < groups.len() && (#[trigger] groups[i]).0 == p.0;
        groups.update(i, (p.0, groups[i].1.push(p.1)))
    } else {
        groups.push((p.0, seq![p.1]))
    }
}

/// Pairs grouped by key: keys in order of first appearance, each with
/// all its values in order.
pub open spec fn group_pairs(pairs: Seq<(Seq<char>, Seq<char>)>) -> Seq<
    (Seq<char>, Seq<Seq<char>>),
>
    decreases pairs.len(),
{
    if pairs.len() == 0 {
        Seq::empty()
    } else {
        add_pair(group_pairs(pairs.drop_last()), pairs.last())
    }
}

/// Keys with their values, in order of first appearance.
struct Groups {
    /// Key -> position of its group.
    positions: StringHashMap<usize>,
    group_keys: Vec<String>,
    group_values: Vec<Vec<String>>,
}

/// Parse the line `v[lo..hi]`, as [`spec_parse_line`] describes.
fn parse_line(v: &[char], lo: usize, hi: usize) -> (r: Option<(String, String)>)
    requires
        lo <= hi <= v@.len(),
    ensures
        match r {
            Some((k, m)) => spec_parse_line(v@.subrange(lo as int, hi as int)) == Some((k@, m@)),
            None => spec_parse_line(v@.subrange(lo as int, hi as int)) is None,
        },
{
    let ghost line = v@.subrange(lo as int, hi as int);
    if lo == hi || v[lo] == '#' {
        return None;
    }
    let mut t = lo;
    while t < hi && v[t] != '\t'
        invariant
            lo <= t <= hi <= v@.len(),
            forall|k: int| lo <= k < t ==> v@[k] != '\t',
        decreases hi - t,
    {
        t += 1;
    }
    proof {
        lemma_first_index_of_unique(line, '\t', t - lo);
    }
    if t == hi {
        return None;
    }
    let (a, b) = trim_range(v, lo, t);
    let (c, d) = trim_range(v, t + 1, hi);
    assert(line.take(t - lo) =~= v@.subrange(lo as int, t as int));
    assert(line.skip(t - lo + 1) =~= v@.subrange(t + 1, hi as int));
    if a == b || c == d {
        return None;
    }
    let cyrillic = string_from_range(v, a, b);
    let mongolian = string_from_range(v, c, d);
    let key = to_lowercase(cyrillic.as_str());
    Some((key, mongolian))
}

impl Groups {
    spec fn groups(&self) -> Seq<(Seq<char>, Seq<Seq<char>>)> {
        Seq::new(
            self.group_keys@.len(),
            |i: int| (self.group_keys@[i]@, self.group_values@[i]@.map_values(|s: String| s@)),
        )
    }

    spec fn wf(&self) -> bool {
        &&& self.group_keys@.len() == self.group_values@.len()
        &&& forall|i: int|
            0 <= i < self.group_keys@.len() ==> self.positions@.contains_key(
                (#[trigger] self.group_keys@[i])@,
            ) && self.positions@[self.group_keys@[i]@] == i
        &&& forall|k: Seq<char>| #[trigger]
            self.positions@.contains_key(k) ==> self.positions@[k] < self.group_keys@.len()
                && self.group_keys@[self.positions@[k] as int]@ == k
        &&& forall|i: int|
            0 <= i < self.group_values@.len() ==> (#[trigger] self.group_values@[i])@.len() > 0
    }

    /// Parse TSV text into groups.
    fn parse(text: &str) -> (d: Groups)
        ensures
            d.wf(),
            d.groups() == group_pairs(spec_tsv_pairs(text@)),
    {
        let v = chars_of(text);
        let mut d = Groups::empty();
        let mut ls: usize = 0;
        let mut i: usize = 0;
        let ghost mut pairs: Seq<(Seq<char>, Seq<char>)> = Seq::empty();
        assert(v@.skip(0) =~= v@);
        while i < v.len()
            invariant
                v@ == text@,
                ls <= i <= v@.len(),
                forall|k: int| ls <= k < i ==> v@[k] != '\n',
                d.wf(),
                d.groups() == group_pairs(pairs),
                pairs + pairs_of_lines(spec_lines(v@.skip(ls as int))) == spec_tsv_pairs(text@),
            decreases v@.len() - i,
        {
            if v[i] == '\n' {
                let end = if i > ls && v[i - 1] == '\r' {
                    i - 1
                } else {
                    i
                };
                let ghost rest = v@.skip(ls as int);
                proof {
                    lemma_first_index_of_unique(rest, '\n', i - ls);
                    assert(rest.skip(i - ls + 1) =~= v@.skip(i + 1));
                    assert(strip_cr(rest.take(i - ls)) =~= v@.subrange(ls as int, end as int));
                    let lines = spec_lines(rest);
                    assert(lines == seq![v@.subrange(ls as int, end as int)] + spec_lines(v@.skip(i + 1)));
                    assert(lines[0] == v@.subrange(ls as int, end as int));
                    assert(lines.drop_first() =~= spec_lines(v@.skip(i + 1)));
                }
                let parsed = parse_line(&v, ls, end);
                match parsed {
                    Some((k, m)) => {
                        let ghost p = (k@, m@);
                        d.add(k, m);
                        proof {
                            assert(pairs.push(p).drop_last() =~= pairs);
                            assert(pairs + seq![p] + pairs_of_lines(spec_lines(v@.skip(i + 1))) =~= pairs.push(p) + pairs_of_lines(spec_lines(v@.skip(i + 1))));
                            pairs = pairs.push(p);
                        }
                    },
                    None => {},
                }
                ls = i + 1;
            }
            i += 1;
        }
        if ls < v.len() {
            let ghost rest = v@.skip(ls as int);
            proof {
                lemma_first_index_of_unique(rest, '\n', rest.len() as int);
                assert(rest =~= v@.subrange(ls as int, v@.len() as int));
                let lines = spec_lines(rest);
                assert(lines == seq![rest]);
                assert(lines[0] == rest);
                assert(lines.drop_first() =~= Seq::<Seq<char>>::empty());
                assert(pairs_of_lines(lines.drop_first()) =~= Seq::<(Seq<char>, Seq<char>)>::empty());
            }
            let parsed = parse_line(&v, ls, v.len());
            match parsed {
                Some((k, m)) => {
                    let ghost p = (k@, m@);
                    d.add(k, m);
                    proof {
                        assert(pairs.push(p).drop_last() =~= pairs);
                        assert(pairs + (seq![p] + Seq::<(Seq<char>, Seq<char>)>::empty()) =~= pairs.push(p));
                        pairs = pairs.push(p);
                        assert(pairs == spec_tsv_pairs(text@));
                    }
                },
                None => {
                    assert(pairs + Seq::<(Seq<char>, Seq<char>)>::empty() =~= pairs);
                    assert(pairs == spec_tsv_pairs(text@));
                },
            }
        } else {
            assert(v@.skip(ls as int) =~= Seq::<char>::empty());
            assert(spec_lines(v@.skip(ls as int)) =~= Seq::<Seq<char>>::empty());
            assert(pairs + Seq::<(Seq<char>, Seq<char>)>::empty() =~= pairs);
            assert(pairs == spec_tsv_pairs(text@));
        }
        d
    }

    fn empty() -> (d: Groups)
        ensures
            d.wf(),
            d.groups() == Seq::<(Seq<char>, Seq<Seq<char>>)>::empty(),
    {
        let d = Groups {
            positions: StringHashMap::new(),
            group_keys: Vec::new(),
            group_values: Vec::new(),
        };
        assert(d.groups() =~= Seq::<(Seq<char>, Seq<Seq<char>>)>::empty());
        d
    }

    fn add(&mut self, key: String, value: String)
        requires
            old(self).wf(),
        ensures
            final(self).wf(),
            final(self).groups() == add_pair(old(self).groups(), (key@, value@)),
    {
        let ghost g0 = self.groups();
        match self.positions.get(key.as_str()) {
            Some(pos) => {
                let pos = *pos;
                let ghost old_values = self.group_values@[pos as int];
                self.group_values[pos].push(value);
                proof {
                    assert(g0[pos as int].0 == key@);
                    let i = choose|i: int| 0 <= i < g0.len() && (#[trigger] g0[i]).0 == key@;
                    assert(self.positions@[g0[i].0] == i);
                    assert(self.group_values@[pos as int]@ == old_values@.push(value));
                    assert(i == pos);
                    assert(self.group_values@[pos as int]@.map_values(|s: String| s@) =~= g0[pos as int].1.push(value@));
                    let expected = add_pair(g0, (key@, value@));
                    assert(expected == g0.update(pos as int, (key@, g0[pos as int].1.push(value@))));
                    assert forall|j: int| 0 <= j < expected.len() implies #[trigger] self.groups()[j] == expected[j] by {
                        if j != pos {
                            assert(self.group_values@[j] == old(self).group_values@[j]);
                        }
                    }
                    assert(self.groups() =~= expected);
                }
            },
            None => {
                let n = self.group_keys.len();
                let k2 = key.clone();
                self.positions.insert(k2, n);
                self.group_keys.push(key);
                let mut vs: Vec<String> = Vec::new();
                vs.push(value);
                self.group_values.push(vs);
                proof {
                    assert forall|i: int| 0 <= i < g0.len() implies (#[trigger] g0[i]).0 != key@ by {
                        assert(self.positions@.contains_key(old(self).group_keys@[i]@));
                    }
                    let expected = add_pair(g0, (key@, value@));
                    assert(expected == g0.push((key@, seq![value@])));
                    assert(vs@.map_values(|s: String| s@) =~= seq![value@]);
                    assert forall|j: int| 0 <= j < expected.len() implies #[trigger] self.groups()[j] == expected[j] by {
                        if j < n {
                            assert(self.group_values@[j] == old(self).group_values@[j]);
                            assert(self.group_keys@[j] == old(self).group_keys@[j]);
                        }
                    }
                    assert(self.groups() =~= expected);
                }
            },
        }
    }
}


/// Most suggestions `suggest` returns.
pub const SUGGESTION_LIMIT: usize = 8;

/// Most prefix matches `suggest` ranks before cutting down to
/// `SUGGESTION_LIMIT`.
pub const MAX_PREFIX_SCAN: usize = 500;

/// The single-word pairs of one key's values: each value without
/// whitespace, paired with the key.
pub open spec fn single_word_values(k: Seq<char>, vs: Seq<Seq<char>>) -> Seq<(Seq<char>, Seq<char>)>
    decreases vs.len(),
{
    if vs.len() == 0 {
        Seq::empty()
    } else {
        let rest = single_word_values(k, vs.drop_last());
        if has_whitespace(vs.last()) {
            rest
        } else {
            rest.push((k, vs.last()))
        }
    }
}

/// All single-word `(key, value)` entries of the groups (phrases, with
/// whitespace in either column, are left out), in group order.
pub open spec fn single_word_entries(groups: Seq<(Seq<char>, Seq<Seq<char>>)>) -> Seq<(Seq<char>, Seq<char>)>
    decreases groups.len(),
{
    if groups.len() == 0 {
        Seq::empty()
    } else {
        let rest = single_word_entries(groups.drop_last());
        let g = groups.last();
        if has_whitespace(g.0) {
            rest
        } else {
            rest + single_word_values(g.0, g.1)
        }
    }
}

/// Mongolian text with its format-control characters removed.
pub open spec fn spec_normalize_mongolian(s: Seq<char>) -> Seq<char> {
    s.filter(not_format_control())
}

/// Keeps characters that are not format controls.
pub open spec fn not_format_control() -> spec_fn(char) -> bool {
    |c: char| !spec_is_format_control(c)
}

/// Positions `0..keys.len()` sorted by their key's bytes.
pub open spec fn sorted_positions(keys: Seq<Seq<char>>) -> Seq<usize> {
    Seq::new(keys.len(), |i: int| i as usize).sort_by(key_order(keys))
}

/// The distinct values of `vals`, in order of first occurrence, at most
/// `cap` of them.
pub open spec fn dedup_capped(vals: Seq<Seq<char>>, cap: nat) -> Seq<Seq<char>>
    decreases vals.len(),
{
    if vals.len() == 0 {
        Seq::empty()
    } else {
        let acc = dedup_capped(vals.drop_last(), cap);
        if acc.len() < cap && !acc.contains(vals.last()) {
            acc.push(vals.last())
        } else {
            acc
        }
    }
}

/// Suggestions for the non-empty `query` against entries whose search
/// keys are `keys` and whose suggested values are `values`: the entries
/// whose key starts with `query` (at most `MAX_PREFIX_SCAN` of them, in
/// key order), ranked by [`candidate_order`], their values deduplicated
/// and capped at `SUGGESTION_LIMIT`.
pub open spec fn rank_suggestions(keys: Seq<Seq<char>>, values: Seq<Seq<char>>, query: Seq<char>) -> Seq<Seq<char>> {
    let q = encode_utf8(query);
    let order = sorted_positions(keys);
    let start = count_keys_before(order, keys, q) as int;
    let n = count_prefixed(order.skip(start), keys, q) as int;
    let end = start + (if n < MAX_PREFIX_SCAN { n } else { MAX_PREFIX_SCAN as int });
    let ranked = order.subrange(start, end).sort_by(candidate_order(keys, q));
    dedup_capped(ranked.map_values(|i: usize| values[i as int]), SUGGESTION_LIMIT as nat)
}

/// Word suggestions for `prefix` in `script`, always Mongolian values.
/// Cyrillic prefixes are trimmed, lower-cased and matched against the
/// keys; Mongolian prefixes are trimmed, stripped of format controls and
/// matched against the equally stripped values. Other scripts, and
/// prefixes that are empty after this, get no suggestions.
pub open spec fn spec_suggest(groups: Seq<(Seq<char>, Seq<Seq<char>>)>, prefix: Seq<char>, script: Script) -> Seq<Seq<char>> {
    let entries = single_word_entries(groups);
    let keys = entries.map_values(|e: (Seq<char>, Seq<char>)| e.0);
    let values = entries.map_values(|e: (Seq<char>, Seq<char>)| e.1);
    match script {
        Script::Cyrillic => {
            let q = str_to_lowercase(spec_trim(prefix));
            if q.len() == 0 {
                Seq::empty()
            } else {
                rank_suggestions(keys, values, q)
            }
        },
        Script::Mongolian => {
            let q = spec_normalize_mongolian(spec_trim(prefix));
            if q.len() == 0 {
                Seq::empty()
            } else {
                rank_suggestions(values.map_values(|v: Seq<char>| spec_normalize_mongolian(v)), values, q)
            }
        },
        Script::Other => Seq::empty(),
    }
}

/// The values grouped under `key`, if it is a key.
pub open spec fn group_of(groups: Seq<(Seq<char>, Seq<Seq<char>>)>, key: Seq<char>) -> Option<Seq<Seq<char>>> {
    if exists|i: int| 0 <= i < groups.len() && (#[trigger] groups[i]).0 == key {
        let i = choose|i: int| 0 <= i < groups.len() && (#[trigger] groups[i]).0 == key;
        Some(groups[i].1)
    } else {
        None
    }
}

/// The characters of `v[lo..hi]` without format-control characters.
fn normalize_range(v: &[char], lo: usize, hi: usize) -> (r: String)
    requires
        lo <= hi <= v@.len(),
    ensures
        r@ == spec_normalize_mongolian(v@.subrange(lo as int, hi as int)),
{
    let ghost src = v@.subrange(lo as int, hi as int);
    let mut out: Vec<char> = Vec::new();
    let mut i = lo;
    assert(src.take(0) =~= Seq::<char>::empty());
    assert(Seq::<char>::empty().filter(not_format_control()) =~= Seq::<char>::empty()) by {
        reveal(Seq::filter);
    }
    while i < hi
        invariant
            lo <= i <= hi <= v@.len(),
            src == v@.subrange(lo as int, hi as int),
            out@ == src.take(i - lo).filter(not_format_control()),
        decreases hi - i,
    {
        let c = v[i];
        assert(src.take(i - lo + 1) =~= src.take(i - lo).push(c));
        proof {
            src.take(i - lo).lemma_filter_push(c, not_format_control());
        }
        if !is_format_control(c) {
            out.push(c);
        }
        i += 1;
    }
    assert(src.take(hi - lo) =~= src);
    string_from_chars(&out)
}

/// Cyrillic -> Traditional Mongolian dictionary.
pub struct Dictionary {
    groups: Groups,
    /// Single-word entries: keys, values, and values without format
    /// controls, position by position.
    entry_keys: Vec<String>,
    entry_values: Vec<String>,
    mongolian_keys: Vec<String>,
    /// Entry positions sorted by key / by format-control-free value.
    cyrillic_index: Vec<usize>,
    mongolian_index: Vec<usize>,
}

impl Dictionary {
    /// Each key with all its values, keys in order of first appearance.
    pub closed spec fn groups(&self) -> Seq<(Seq<char>, Seq<Seq<char>>)> {
        self.groups.groups()
    }

    /// The dictionary's indices agree with its content.
    pub closed spec fn wf(&self) -> bool {
        let n = self.entry_keys@.len();
        let entries = single_word_entries(self.groups.groups());
        &&& self.groups.wf()
        &&& self.entry_values@.len() == n
        &&& self.mongolian_keys@.len() == n
        &&& entries.len() == n
        &&& forall|i: int| 0 <= i < n ==> #[trigger] entries[i] == (self.entry_keys@[i]@, self.entry_values@[i]@)
        &&& forall|i: int| 0 <= i < n ==> (#[trigger] self.mongolian_keys@[i])@ == spec_normalize_mongolian(self.entry_values@[i]@)
        &&& self.cyrillic_index@ == sorted_positions(views(self.entry_keys@))
        &&& self.mongolian_index@ == sorted_positions(views(self.mongolian_keys@))
        &&& forall|k: int| 0 <= k < self.cyrillic_index@.len() ==> (#[trigger] self.cyrillic_index@[k]) < n
        &&& forall|k: int| 0 <= k < self.mongolian_index@.len() ==> (#[trigger] self.mongolian_index@[k]) < n
    }

    /// Parses TSV text: one `cyrillic<TAB>mongolian` pair per line.
    pub fn from_tsv(text: &str) -> (d: Dictionary)
        ensures
            d.wf(),
            d.groups() == group_pairs(spec_tsv_pairs(text@)),
    {
        let groups = Groups::parse(text);
        let mut entry_keys: Vec<String> = Vec::new();
        let mut entry_values: Vec<String> = Vec::new();
        let mut mongolian_keys: Vec<String> = Vec::new();
        let ghost gs = groups.groups();
        let mut g: usize = 0;
        assert(gs.take(0) =~= Seq::<(Seq<char>, Seq<Seq<char>>)>::empty());
        while g < groups.group_keys.len()
            invariant
                groups.wf(),
                gs == groups.groups(),
                g <= gs.len(),
                entry_values@.len() == entry_keys@.len(),
                mongolian_keys@.len() == entry_keys@.len(),
                single_word_entries(gs.take(g as int)).len() == entry_keys@.len(),
                forall|i: int| 0 <= i < entry_keys@.len() ==> #[trigger] single_word_entries(gs.take(g as int))[i] == (entry_keys@[i]@, entry_values@[i]@),
                forall|i: int| 0 <= i < entry_keys@.len() ==> (#[trigger] mongolian_keys@[i])@ == spec_normalize_mongolian(entry_values@[i]@),
            decreases gs.len() - g,
        {
            let key = &groups.group_keys[g];
            let vals = &groups.group_values[g];
            let ghost before = single_word_entries(gs.take(g as int));
            let ghost base = entry_keys@.len();
            assert(gs.take(g + 1).drop_last() =~= gs.take(g as int));
            assert(gs.take(g + 1).last() == gs[g as int]);
            assert(gs[g as int] == (key@, views(vals@)));
            if !contains_whitespace(key.as_str()) {
                let mut j: usize = 0;
                assert(views(vals@).take(0) =~= Seq::<Seq<char>>::empty());
                while j < vals.len()
                    invariant
                        g < gs.len(),
                        gs[g as int] == (key@, views(vals@)),
                        j <= vals@.len(),
                        entry_values@.len() == entry_keys@.len(),
                        mongolian_keys@.len() == entry_keys@.len(),
                        base <= entry_keys@.len(),
                        before.len() == base,
                        (before + single_word_values(key@, views(vals@).take(j as int))).len() == entry_keys@.len(),
                        forall|i: int| 0 <= i < entry_keys@.len() ==> #[trigger] (before + single_word_values(key@, views(vals@).take(j as int)))[i] == (entry_keys@[i]@, entry_values@[i]@),
                        forall|i: int| 0 <= i < entry_keys@.len() ==> (#[trigger] mongolian_keys@[i])@ == spec_normalize_mongolian(entry_values@[i]@),
                    decreases vals@.len() - j,
                {
                    let val = &vals[j];
                    let ghost prev = single_word_values(key@, views(vals@).take(j as int));
                    assert(views(vals@).take(j + 1).drop_last() =~= views(vals@).take(j as int));
                    assert(views(vals@).take(j + 1).last() == val@);
                    if !contains_whitespace(val.as_str()) {
                        let vchars = chars_of(val.as_str());
                        let norm = normalize_range(&vchars, 0, vchars.len());
                        assert(vchars@.subrange(0, vchars@.len() as int) =~= val@);
                        entry_keys.push(key.clone());
                        entry_values.push(val.clone());
                        mongolian_keys.push(norm);
                        assert(before + prev.push((key@, val@)) =~= (before + prev).push((key@, val@)));
                    }
                    j += 1;
                }
                assert(views(vals@).take(j as int) =~= views(vals@));
            } else {
                assert(before + Seq::<(Seq<char>, Seq<char>)>::empty() =~= before);
            }
            g += 1;
        }
        assert(gs.take(g as int) =~= gs);
        let n = entry_keys.len();
        let mut positions: Vec<usize> = Vec::new();
        let mut k: usize = 0;
        while k < n
            invariant
                k <= n,
                positions@ == Seq::new(k as nat, |i: int| i as usize),
            decreases n - k,
        {
            positions.push(k);
            assert(positions@ =~= Seq::new((k + 1) as nat, |i: int| i as usize));
            k += 1;
        }
        let positions2 = positions.clone();
        assert(positions2@ =~= positions@) by {
            assert forall|i: int| 0 <= i < positions@.len() implies positions2@[i] == positions@[i] by {
                assert(vstd::pervasive::cloned(positions@[i], positions2@[i]));
            }
        }
        let cyrillic_index = sort_by_key_bytes(positions, &entry_keys);
        let mongolian_index = sort_by_key_bytes(positions2, &mongolian_keys);
        proof {
            let range = Seq::new(n as nat, |i: int| i as usize);
            lemma_key_order_is_total(views(entry_keys@));
            range.lemma_sort_by_ensures(key_order(views(entry_keys@)));
            vstd::seq_lib::lemma_sorted_unique(cyrillic_index@, sorted_positions(views(entry_keys@)), key_order(views(entry_keys@)));
            lemma_key_order_is_total(views(mongolian_keys@));
            range.lemma_sort_by_ensures(key_order(views(mongolian_keys@)));
            vstd::seq_lib::lemma_sorted_unique(mongolian_index@, sorted_positions(views(mongolian_keys@)), key_order(views(mongolian_keys@)));
        }
        Dictionary { groups, entry_keys, entry_values, mongolian_keys, cyrillic_index, mongolian_index }
    }

    /// The Mongolian variants of a Cyrillic word, matched trimmed and
    /// case-insensitively; `None` for an empty word or an unknown one.
    pub fn lookup(&self, cyrillic: &str) -> (r: Option<&[String]>)
        requires
            self.wf(),
        ensures
            ({
                let key = str_to_lowercase(spec_trim(cyrillic@));
                match r {
                    Some(vs) => key.len() > 0 && group_of(self.groups(), key) == Some(views(vs@)),
                    None => key.len() == 0 || group_of(self.groups(), key) is None,
                }
            }),
    {
        let v = chars_of(cyrillic);
        let (a, b) = trim_range(&v, 0, v.len());
        assert(v@.subrange(0, v@.len() as int) =~= cyrillic@);
        let trimmed = string_from_range(&v, a, b);
        let key = to_lowercase(trimmed.as_str());
        if key.as_str().is_empty() {
            return None;
        }
        let ghost gs = self.groups.groups();
        match self.groups.positions.get(key.as_str()) {
            Some(pos) => {
                let pos = *pos;
                proof {
                    assert(gs[pos as int].0 == key@);
                    let i = choose|i: int| 0 <= i < gs.len() && (#[trigger] gs[i]).0 == key@;
                    assert(self.groups.positions@[gs[i].0] == i);
                }
                Some(self.groups.group_values[pos].as_slice())
            },
            None => {
                proof {
                    assert forall|i: int| 0 <= i < gs.len() implies (#[trigger] gs[i]).0 != key@ by {
                        assert(self.groups.positions@.contains_key(self.groups.group_keys@[i]@));
                    }
                }
                None
            },
        }
    }

    /// Live word-completion candidates for `prefix`, always Mongolian
    /// values ready to insert (see [`spec_suggest`]). Ranked: exact key
    /// matches first, then shorter keys, then key order; deduplicated;
    /// at most `SUGGESTION_LIMIT`.
    pub fn suggest(&self, prefix: &str, script: Script) -> (r: Vec<String>)
        requires
            self.wf(),
        ensures
            views(r@) == spec_suggest(self.groups(), prefix@, script),
    {
        let v = chars_of(prefix);
        let (a, b) = trim_range(&v, 0, v.len());
        assert(v@.subrange(0, v@.len() as int) =~= prefix@);
        let ghost entries = single_word_entries(self.groups.groups());
        let ghost values = entries.map_values(|e: (Seq<char>, Seq<char>)| e.1);
        assert(values =~= views(self.entry_values@));
        match script {
            Script::Other => Vec::new(),
            Script::Cyrillic => {
                let trimmed = string_from_range(&v, a, b);
                let key = to_lowercase(trimmed.as_str());
                if key.as_str().is_empty() {
                    return Vec::new();
                }
                assert(entries.map_values(|e: (Seq<char>, Seq<char>)| e.0) =~= views(self.entry_keys@));
                self.rank(&self.cyrillic_index, &self.entry_keys, &key)
            },
            Script::Mongolian => {
                let key = normalize_range(&v, a, b);
                if key.as_str().is_empty() {
                    return Vec::new();
                }
                assert(values.map_values(|w: Seq<char>| spec_normalize_mongolian(w)) =~= views(self.mongolian_keys@));
                self.rank(&self.mongolian_index, &self.mongolian_keys, &key)
            },
        }
    }

    fn rank(&self, index: &Vec<usize>, keys: &Vec<String>, key: &String) -> (r: Vec<String>)
        requires
            self.wf(),
            keys@.len() == self.entry_values@.len(),
            index@ == sorted_positions(views(keys@)),
            forall|k: int| 0 <= k < index@.len() ==> (#[trigger] index@[k]) < keys@.len(),
        ensures
            views(r@) == rank_suggestions(views(keys@), views(self.entry_values@), key@),
    {
        let ghost ks = views(keys@);
        let ghost vals = views(self.entry_values@);
        let ghost order = index@;
        let q = key.as_str().as_bytes();
        proof {
            lemma_key_order_is_total(ks);
            Seq::new(ks.len(), |i: int| i as usize).lemma_sort_by_ensures(key_order(ks));
        }
        let start = partition_point(index, keys, q);
        let mut end = start;
        while end < index.len() && end - start < MAX_PREFIX_SCAN && bytes_start_with(
            keys[index[end]].as_str().as_bytes(),
            q,
        )
            invariant
                ks == views(keys@),
                order == index@,
                start <= end <= order.len(),
                end - start <= MAX_PREFIX_SCAN,
                forall|k: int| 0 <= k < order.len() ==> (#[trigger] order[k]) < keys@.len(),
                forall|k: int| start <= k < end ==> q@.is_prefix_of(vstd::utf8::encode_utf8(#[trigger] ks[order[k] as int])),
            decreases order.len() - end,
        {
            end += 1;
        }
        proof {
            let rest = order.skip(start as int);
            assert forall|k: int| 0 <= k < end - start implies q@.is_prefix_of(crate::dictionary::byte_order::key_bytes(ks, #[trigger] rest[k])) by {
                assert(rest[k] == order[start + k]);
            }
            if end < order.len() && end - start < MAX_PREFIX_SCAN {
                assert(rest[end - start] == order[end as int]);
                assert(ks[order[end as int] as int] == keys@[order[end as int] as int]@);
                assert(!q@.is_prefix_of(crate::dictionary::byte_order::key_bytes(ks, rest[end - start])));
                lemma_count_prefixed_unique(rest, ks, q@, end - start);
                assert(count_prefixed(rest, ks, q@) == end - start);
            } else if end == order.len() {
                assert(rest.len() == end - start);
                lemma_count_prefixed_unique(rest, ks, q@, end - start);
                assert(count_prefixed(rest, ks, q@) == end - start);
            } else {
                lemma_count_prefixed_at_least(rest, ks, q@, end - start);
                assert(end - start == MAX_PREFIX_SCAN);
            }
        }
        let mut cands: Vec<usize> = Vec::new();
        let mut k = start;
        while k < end
            invariant
                start <= k <= end <= order.len(),
                order == index@,
                cands@ == order.subrange(start as int, k as int),
            decreases end - k,
        {
            cands.push(index[k]);
            assert(order.subrange(start as int, k + 1) =~= order.subrange(start as int, k as int).push(order[k as int]));
            k += 1;
        }
        let ranked = sort_candidates(&cands, keys, q);
        proof {
            lemma_candidate_order_is_total(ks, q@);
            cands@.lemma_sort_by_ensures(candidate_order(ks, q@));
            vstd::seq_lib::lemma_sorted_unique(ranked@, cands@.sort_by(candidate_order(ks, q@)), candidate_order(ks, q@));
        }
        let ghost ranked_vals = ranked@.map_values(|i: usize| vals[i as int]);
        let mut out: Vec<String> = Vec::new();
        let mut i: usize = 0;
        assert(ranked_vals.take(0) =~= Seq::<Seq<char>>::empty());
        assert forall|j: int| 0 <= j < ranked@.len() implies (#[trigger] ranked@[j]) < keys@.len() by {
            vstd::seq_lib::to_multiset_contains(ranked@, ranked@[j]);
            vstd::seq_lib::to_multiset_contains(cands@, ranked@[j]);
            let m = choose|m: int| 0 <= m < cands@.len() && cands@[m] == ranked@[j];
            assert(cands@[m] == order[start + m]);
        }
        while i < ranked.len()
            invariant
                i <= ranked@.len(),
                vals == views(self.entry_values@),
                keys@.len() == self.entry_values@.len(),
                forall|j: int| 0 <= j < ranked@.len() ==> (#[trigger] ranked@[j]) < keys@.len(),
                ranked_vals == ranked@.map_values(|i: usize| vals[i as int]),
                views(out@) == dedup_capped(ranked_vals.take(i as int), SUGGESTION_LIMIT as nat),
            decreases ranked@.len() - i,
        {
            let val = &self.entry_values[ranked[i]];
            assert(ranked_vals.take(i + 1).drop_last() =~= ranked_vals.take(i as int));
            assert(ranked_vals.take(i + 1).last() == val@);
            if out.len() < SUGGESTION_LIMIT {
                let mut seen = false;
                let mut m: usize = 0;
                while m < out.len()
                    invariant
                        m <= out@.len(),
                        seen == exists|t: int| 0 <= t < m && (#[trigger] out@[t])@ == val@,
                    decreases out@.len() - m,
                {
                    if out[m] == *val {
                        seen = true;
                    }
                    m += 1;
                }
                proof {
                    if seen {
                        let t = choose|t: int| 0 <= t < m && (#[trigger] out@[t])@ == val@;
                        assert(views(out@)[t] == val@);
                        assert(views(out@).contains(val@));
                    } else if views(out@).contains(val@) {
                        let t = choose|t: int| 0 <= t < views(out@).len() && views(out@)[t] == val@;
                        assert(out@[t]@ == val@);
                        assert(false);
                    }
                }
                if !seen {
                    let ghost before = out@;
                    out.push(val.clone());
                    assert(views(out@) =~= views(before).push(val@));
                }
            }
            i += 1;
        }
        assert(ranked_vals.take(i as int) =~= ranked_vals);
        assert(ranked_vals =~= ranked@.map_values(|i: usize| views(self.entry_values@)[i as int]));
        proof {
            let qq = vstd::utf8::encode_utf8(key@);
            assert(qq == q@);
            assert(sorted_positions(ks) == order);
            assert(count_keys_before(order, ks, qq) == start);
            let n = count_prefixed(order.skip(start as int), ks, qq) as int;
            assert(end == start + (if n < MAX_PREFIX_SCAN { n } else { MAX_PREFIX_SCAN as int }));
            assert(ranked@ == order.subrange(start as int, end as int).sort_by(candidate_order(ks, qq)));
        }
        out
    }

    /// Total number of distinct keys.
    pub fn len(&self) -> (n: usize)
        requires
            self.wf(),
        ensures
            n == self.groups().len(),
    {
        self.groups.group_keys.len()
    }
}


// ---------------------------------------------------------------------
// What suggestions always are
// ---------------------------------------------------------------------

proof fn lemma_dedup_capped(vals: Seq<Seq<char>>, cap: nat)
    ensures
        dedup_capped(vals, cap).len() <= cap,
        forall|i: int, j: int|
            0 <= i < j < dedup_capped(vals, cap).len() ==> dedup_capped(vals, cap)[i] != dedup_capped(
                vals,
                cap,
            )[j],
        forall|k: int| 0 <= k < dedup_capped(vals, cap).len() ==> vals.contains(#[trigger] dedup_capped(vals, cap)[k]),
    decreases vals.len(),
{
    if vals.len() > 0 {
        let rest = vals.drop_last();
        lemma_dedup_capped(rest, cap);
        let acc = dedup_capped(rest, cap);
        let r = dedup_capped(vals, cap);
        assert forall|k: int| 0 <= k < r.len() implies vals.contains(#[trigger] r[k]) by {
            if k < acc.len() {
                assert(rest.contains(acc[k]));
                let j = choose|j: int| 0 <= j < rest.len() && rest[j] == acc[k];
                assert(vals[j] == acc[k]);
            } else {
                assert(vals[vals.len() - 1] == r[k]);
            }
        }
    }
}

proof fn lemma_count_keys_before_bound(order: Seq<usize>, keys: Seq<Seq<char>>, q: Seq<u8>)
    ensures
        count_keys_before(order, keys, q) <= order.len(),
    decreases order.len(),
{
    if order.len() > 0 {
        lemma_count_keys_before_bound(order.drop_first(), keys, q);
    }
}

proof fn lemma_count_prefixed_bound(order: Seq<usize>, keys: Seq<Seq<char>>, q: Seq<u8>)
    ensures
        count_prefixed(order, keys, q) <= order.len(),
    decreases order.len(),
{
    if order.len() > 0 {
        lemma_count_prefixed_bound(order.drop_first(), keys, q);
    }
}

/// Every single-word entry has no whitespace in either column.
pub proof fn lemma_single_word_entries(groups: Seq<(Seq<char>, Seq<Seq<char>>)>)
    ensures
        forall|k: int|
            0 <= k < single_word_entries(groups).len() ==> !has_whitespace(
                (#[trigger] single_word_entries(groups)[k]).0,
            ) && !has_whitespace(single_word_entries(groups)[k].1),
    decreases groups.len(),
{
    if groups.len() > 0 {
        lemma_single_word_entries(groups.drop_last());
        let g = groups.last();
        let rest = single_word_entries(groups.drop_last());
        let all = single_word_entries(groups);
        if !has_whitespace(g.0) {
            lemma_single_word_values(g.0, g.1);
            let sv = single_word_values(g.0, g.1);
            assert(all == rest + sv);
            assert forall|k: int| 0 <= k < all.len() implies !has_whitespace((#[trigger] all[k]).0)
                && !has_whitespace(all[k].1) by {
                if k >= rest.len() {
                    assert(all[k] == sv[k - rest.len()]);
                } else {
                    assert(all[k] == rest[k]);
                }
            }
        } else {
            assert(all == rest);
        }
    }
}

proof fn lemma_single_word_values(key: Seq<char>, vs: Seq<Seq<char>>)
    ensures
        forall|k: int|
            0 <= k < single_word_values(key, vs).len() ==> (#[trigger] single_word_values(key, vs)[k]).0
                == key && !has_whitespace(single_word_values(key, vs)[k].1),
    decreases vs.len(),
{
    if vs.len() > 0 {
        lemma_single_word_values(key, vs.drop_last());
        let rest = single_word_values(key, vs.drop_last());
        let all = single_word_values(key, vs);
        assert forall|k: int| 0 <= k < all.len() implies (#[trigger] all[k]).0 == key && !has_whitespace(
            all[k].1,
        ) by {
            if k < rest.len() {
                assert(all[k] == rest[k]);
            }
        }
    }
}

/// Ranking returns at most [`SUGGESTION_LIMIT`] distinct values, each
/// the value of some entry.
proof fn lemma_rank_suggestions(keys: Seq<Seq<char>>, values: Seq<Seq<char>>, query: Seq<char>)
    requires
        keys.len() == values.len(),
    ensures
        rank_suggestions(keys, values, query).len() <= SUGGESTION_LIMIT,
        forall|i: int, j: int|
            0 <= i < j < rank_suggestions(keys, values, query).len() ==> rank_suggestions(
                keys,
                values,
                query,
            )[i] != rank_suggestions(keys, values, query)[j],
        forall|k: int|
            0 <= k < rank_suggestions(keys, values, query).len() ==> values.contains(
                #[trigger] rank_suggestions(keys, values, query)[k],
            ),
{
    let q = encode_utf8(query);
    let ids = Seq::new(keys.len(), |i: int| i as usize);
    let order = sorted_positions(keys);
    lemma_key_order_is_total(keys);
    ids.lemma_sort_by_ensures(key_order(keys));
    let start = count_keys_before(order, keys, q) as int;
    lemma_count_keys_before_bound(order, keys, q);
    let n = count_prefixed(order.skip(start), keys, q) as int;
    lemma_count_prefixed_bound(order.skip(start), keys, q);
    let end = start + (if n < MAX_PREFIX_SCAN { n } else { MAX_PREFIX_SCAN as int });
    let sub = order.subrange(start, end);
    lemma_candidate_order_is_total(keys, q);
    sub.lemma_sort_by_ensures(candidate_order(keys, q));
    let ranked = sub.sort_by(candidate_order(keys, q));
    let vals = ranked.map_values(|i: usize| values[i as int]);
    lemma_dedup_capped(vals, SUGGESTION_LIMIT as nat);
    let r = dedup_capped(vals, SUGGESTION_LIMIT as nat);
    assert(r == rank_suggestions(keys, values, query));
    assert forall|k: int| 0 <= k < r.len() implies values.contains(#[trigger] r[k]) by {
        assert(vals.contains(r[k]));
        let j = choose|j: int| 0 <= j < vals.len() && vals[j] == r[k];
        let p = ranked[j];
        assert(ranked.contains(p));
        assert(sub.contains(p));
        let a = choose|a: int| 0 <= a < sub.len() && sub[a] == p;
        assert(order[start + a] == p);
        assert(order.contains(p));
        assert(ids.contains(p));
        let b = choose|b: int| 0 <= b < ids.len() && ids[b] == p;
        assert(values[p as int] == r[k]);
        assert(0 <= p < values.len());
    }
}

/// Suggestions never exceed [`SUGGESTION_LIMIT`], never repeat, and
/// are single words; a word in another script gets none.
pub proof fn lemma_suggestions_are_few_distinct_single_words(
    groups: Seq<(Seq<char>, Seq<Seq<char>>)>,
    prefix: Seq<char>,
    script: Script,
)
    ensures
        spec_suggest(groups, prefix, script).len() <= SUGGESTION_LIMIT,
        forall|i: int, j: int|
            0 <= i < j < spec_suggest(groups, prefix, script).len() ==> spec_suggest(
                groups,
                prefix,
                script,
            )[i] != spec_suggest(groups, prefix, script)[j],
        forall|k: int|
            0 <= k < spec_suggest(groups, prefix, script).len() ==> !has_whitespace(
                #[trigger] spec_suggest(groups, prefix, script)[k],
            ),
        script == Script::Other ==> spec_suggest(groups, prefix, script).len() == 0,
{
    let entries = single_word_entries(groups);
    let keys = entries.map_values(|e: (Seq<char>, Seq<char>)| e.0);
    let values = entries.map_values(|e: (Seq<char>, Seq<char>)| e.1);
    lemma_single_word_entries(groups);
    let r = spec_suggest(groups, prefix, script);
    match script {
        Script::Cyrillic => {
            let q = str_to_lowercase(spec_trim(prefix));
            if q.len() > 0 {
                lemma_rank_suggestions(keys, values, q);
            }
        },
        Script::Mongolian => {
            let q = spec_normalize_mongolian(spec_trim(prefix));
            if q.len() > 0 {
                let mkeys = values.map_values(|v: Seq<char>| spec_normalize_mongolian(v));
                lemma_rank_suggestions(mkeys, values, q);
            }
        },
        Script::Other => {},
    }
    assert forall|k: int| 0 <= k < r.len() implies !has_whitespace(#[trigger] r[k]) by {
        assert(values.contains(r[k]));
        let x = choose|x: int| 0 <= x < values.len() && values[x] == r[k];
        assert(values[x] == entries[x].1);
    }
}


// ---------------------------------------------------------------------
// What a lookup gives back
// ---------------------------------------------------------------------

/// The values paired with `key`, in order.
pub open spec fn values_for(pairs: Seq<(Seq<char>, Seq<char>)>, key: Seq<char>) -> Seq<Seq<char>>
    decreases pairs.len(),
{
    if pairs.len() == 0 {
        Seq::empty()
    } else {
        let v = values_for(pairs.drop_last(), key);
        if pairs.last().0 == key {
            v.push(pairs.last().1)
        } else {
            v
        }
    }
}

pub open spec fn keys_distinct(groups: Seq<(Seq<char>, Seq<Seq<char>>)>) -> bool {
    forall|i: int, j: int| 0 <= i < j < groups.len() ==> (#[trigger] groups[i]).0 != (#[trigger] groups[j]).0
}

proof fn lemma_group_of_unique(groups: Seq<(Seq<char>, Seq<Seq<char>>)>, key: Seq<char>, i: int)
    requires
        keys_distinct(groups),
        0 <= i < groups.len(),
        groups[i].0 == key,
    ensures
        group_of(groups, key) == Some(groups[i].1),
{
    let j = choose|j: int| 0 <= j < groups.len() && (#[trigger] groups[j]).0 == key;
    if j < i {
        assert(groups[j].0 != groups[i].0);
    } else if i < j {
        assert(groups[i].0 != groups[j].0);
    }
}

proof fn lemma_group_pairs_keys_distinct(pairs: Seq<(Seq<char>, Seq<char>)>)
    ensures
        keys_distinct(group_pairs(pairs)),
    decreases pairs.len(),
{
    if pairs.len() > 0 {
        let g = group_pairs(pairs.drop_last());
        lemma_group_pairs_keys_distinct(pairs.drop_last());
        let p = pairs.last();
        let g2 = group_pairs(pairs);
        if exists|i: int| 0 <= i < g.len() && (#[trigger] g[i]).0 == p.0 {
            let k = choose|i: int| 0 <= i < g.len() && (#[trigger] g[i]).0 == p.0;
            assert(g2 == g.update(k, (p.0, g[k].1.push(p.1))));
            assert forall|i: int, j: int| 0 <= i < j < g2.len() implies (#[trigger] g2[i]).0 != (#[trigger] g2[j]).0 by {
                assert(g2[i].0 == g[i].0);
                assert(g2[j].0 == g[j].0);
            }
        } else {
            assert(g2 == g.push((p.0, seq![p.1])));
            assert forall|i: int, j: int| 0 <= i < j < g2.len() implies (#[trigger] g2[i]).0 != (#[trigger] g2[j]).0 by {
                if j == g.len() {
                    assert(g2[i] == g[i]);
                } else {
                    assert(g2[i] == g[i]);
                    assert(g2[j] == g[j]);
                }
            }
        }
    }
}

/// Looking a key up in grouped pairs gives every value paired with it,
/// in the order the pairs came, or nothing if no pair has that key.
pub proof fn lemma_group_of_collects_values(pairs: Seq<(Seq<char>, Seq<char>)>, key: Seq<char>)
    ensures
        group_of(group_pairs(pairs), key) == (if values_for(pairs, key).len() > 0 {
            Some(values_for(pairs, key))
        } else {
            None
        }),
    decreases pairs.len(),
{
    if pairs.len() == 0 {
        assert(group_pairs(pairs).len() == 0);
    } else {
        let init = pairs.drop_last();
        lemma_group_of_collects_values(init, key);
        lemma_group_pairs_keys_distinct(init);
        lemma_group_pairs_keys_distinct(pairs);
        let g = group_pairs(init);
        let g2 = group_pairs(pairs);
        let p = pairs.last();
        let before = values_for(init, key);
        if exists|i: int| 0 <= i < g.len() && (#[trigger] g[i]).0 == p.0 {
            let k = choose|i: int| 0 <= i < g.len() && (#[trigger] g[i]).0 == p.0;
            assert(g2 == g.update(k, (p.0, g[k].1.push(p.1))));
            if key == p.0 {
                lemma_group_of_unique(g, key, k);
                lemma_group_of_unique(g2, key, k);
            } else {
                if exists|j: int| 0 <= j < g.len() && (#[trigger] g[j]).0 == key {
                    let j = choose|j: int| 0 <= j < g.len() && (#[trigger] g[j]).0 == key;
                    lemma_group_of_unique(g, key, j);
                    assert(g2[j] == g[j]);
                    lemma_group_of_unique(g2, key, j);
                } else {
                    assert forall|j: int| 0 <= j < g2.len() implies (#[trigger] g2[j]).0 != key by {
                        assert(g2[j].0 == g[j].0);
                    }
                }
            }
        } else {
            assert(g2 == g.push((p.0, seq![p.1])));
            if key == p.0 {
                lemma_group_of_unique(g2, key, g.len() as int);
                assert(before.len() == 0);
                assert(values_for(pairs, key) =~= seq![p.1]);
            } else {
                if exists|j: int| 0 <= j < g.len() && (#[trigger] g[j]).0 == key {
                    let j = choose|j: int| 0 <= j < g.len() && (#[trigger] g[j]).0 == key;
                    lemma_group_of_unique(g, key, j);
                    assert(g2[j] == g[j]);
                    lemma_group_of_unique(g2, key, j);
                } else {
                    assert forall|j: int| 0 <= j < g2.len() implies (#[trigger] g2[j]).0 != key by {
                        if j < g.len() {
                            assert(g2[j] == g[j]);
                        }
                    }
                }
            }
        }
    }
}

/// A line holding a key column, a tab and a value column parses to its
/// trimmed, lower-cased key and its trimmed value.
proof fn lemma_parse_tab_line(key_raw: Seq<char>, value_raw: Seq<char>)
    requires
        key_raw.len() > 0,
        key_raw[0] != '#',
        forall|j: int| 0 <= j < key_raw.len() ==> key_raw[j] != '\t',
        spec_trim(key_raw).len() > 0,
        spec_trim(value_raw).len() > 0,
    ensures
        spec_parse_line(key_raw + seq!['\t'] + value_raw) == Some(
            (str_to_lowercase(spec_trim(key_raw)), spec_trim(value_raw)),
        ),
{
    let line = key_raw + seq!['\t'] + value_raw;
    let t = key_raw.len() as int;
    assert forall|j: int| 0 <= j < t implies line[j] != '\t' by {
        assert(line[j] == key_raw[j]);
    }
    assert(line[t] == '\t');
    lemma_first_index_of_unique(line, '\t', t);
    assert(line.take(t) =~= key_raw);
    assert(line.skip(t + 1) =~= value_raw);
    assert(line[0] == key_raw[0]);
}

/// Every pair a line contributes is among the pairs of the lines.
proof fn lemma_line_pair_kept(lines: Seq<Seq<char>>, i: int, p: (Seq<char>, Seq<char>))
    requires
        0 <= i < lines.len(),
        spec_parse_line(lines[i]) == Some(p),
    ensures
        pairs_of_lines(lines).contains(p),
    decreases lines.len(),
{
    if i == 0 {
        assert(pairs_of_lines(lines)[0] == p);
    } else {
        assert(lines.drop_first()[i - 1] == lines[i]);
        lemma_line_pair_kept(lines.drop_first(), i - 1, p);
        let rest = pairs_of_lines(lines.drop_first());
        let k = choose|k: int| 0 <= k < rest.len() && rest[k] == p;
        match spec_parse_line(lines[0]) {
            Some(q) => {
                assert(pairs_of_lines(lines)[k + 1] == p);
            },
            None => {
                assert(pairs_of_lines(lines)[k] == p);
            },
        }
    }
}

/// A pair under `key` puts its value among the values for `key`.
proof fn lemma_pair_value_kept(pairs: Seq<(Seq<char>, Seq<char>)>, p: (Seq<char>, Seq<char>))
    requires
        pairs.contains(p),
    ensures
        values_for(pairs, p.0).contains(p.1),
    decreases pairs.len(),
{
    let last = pairs.last();
    let init = pairs.drop_last();
    let v = values_for(init, p.0);
    if last == p {
        assert(values_for(pairs, p.0) == v.push(p.1));
        assert(v.push(p.1)[v.len() as int] == p.1);
    } else {
        let k = choose|k: int| 0 <= k < pairs.len() && pairs[k] == p;
        assert(k < pairs.len() - 1);
        assert(init[k] == p);
        lemma_pair_value_kept(init, p);
        let m = choose|m: int| 0 <= m < v.len() && v[m] == p.1;
        if last.0 == p.0 {
            assert(values_for(pairs, p.0)[m] == p.1);
        }
    }
}

/// Lookup is case-insensitive and finds every entry: for a TSV line
/// `key<TAB>value` (not a comment, both columns non-blank), looking up any
/// word `q` that lower-cases, trimmed, to the same as the trimmed key gives
/// a group of values holding the trimmed value. Keys are stored
/// lower-cased, so "Монгол" in the file is found as "монгол" and as
/// "Монгол".
pub proof fn lemma_every_entry_can_be_looked_up(
    text: Seq<char>,
    i: int,
    key_raw: Seq<char>,
    value_raw: Seq<char>,
    q: Seq<char>,
)
    requires
        0 <= i < spec_lines(text).len(),
        spec_lines(text)[i] == key_raw + seq!['\t'] + value_raw,
        key_raw.len() > 0,
        key_raw[0] != '#',
        forall|j: int| 0 <= j < key_raw.len() ==> key_raw[j] != '\t',
        spec_trim(key_raw).len() > 0,
        spec_trim(value_raw).len() > 0,
        str_to_lowercase(spec_trim(q)) == str_to_lowercase(spec_trim(key_raw)),
    ensures
        group_of(group_pairs(spec_tsv_pairs(text)), str_to_lowercase(spec_trim(q))) matches Some(vs) && vs.contains(
            spec_trim(value_raw),
        ),
{
    let key = str_to_lowercase(spec_trim(key_raw));
    let p = (key, spec_trim(value_raw));
    lemma_parse_tab_line(key_raw, value_raw);
    lemma_line_pair_kept(spec_lines(text), i, p);
    let pairs = spec_tsv_pairs(text);
    lemma_pair_value_kept(pairs, p);
    lemma_group_of_collects_values(pairs, key);
}

/// Lines that are empty, comments (starting with `#`), without a tab, or
/// with a blank column hold no entry.
pub proof fn lemma_skipped_lines(key_raw: Seq<char>, value_raw: Seq<char>, line: Seq<char>)
    ensures
        spec_parse_line(Seq::<char>::empty()) is None,
        line.len() > 0 && line[0] == '#' ==> spec_parse_line(line) is None,
        (forall|j: int| 0 <= j < line.len() ==> line[j] != '\t') ==> spec_parse_line(line) is None,
        (forall|j: int| 0 <= j < key_raw.len() ==> key_raw[j] != '\t') && (spec_trim(key_raw).len() == 0
            || spec_trim(value_raw).len() == 0) ==> spec_parse_line(key_raw + seq!['\t'] + value_raw) is None,
{
    lemma_first_index_of(line, '\t');
    if forall|j: int| 0 <= j < line.len() ==> line[j] != '\t' {
        if first_index_of(line, '\t') < line.len() {
            assert(line[first_index_of(line, '\t')] == '\t');
        }
    }
    let l2 = key_raw + seq!['\t'] + value_raw;
    if forall|j: int| 0 <= j < key_raw.len() ==> key_raw[j] != '\t' {
        let t = key_raw.len() as int;
        assert forall|j: int| 0 <= j < t implies l2[j] != '\t' by {
            assert(l2[j] == key_raw[j]);
        }
        assert(l2[t] == '\t');
        lemma_first_index_of_unique(l2, '\t', t);
        assert(l2.take(t) =~= key_raw);
        assert(l2.skip(t + 1) =~= value_raw);
    }
}

} // verus!
