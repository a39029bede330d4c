//! Character and string primitives from the standard library that the
//! rest of the crate builds on, each stated over `char` and `Seq<char>`.

use vstd::prelude::*;

verus! {

/// The character sequences of a sequence of strings.
pub open spec fn views(v: Seq<String>) -> Seq<Seq<char>> {
    v.map_values(|s: String| s@)
}

/// Whether `c` has the Unicode `Alphabetic` property, as decided by
/// `char::is_alphabetic`.
pub uninterp spec fn char_is_alphabetic(c: char) -> bool;

/// Whether `c` has the Unicode `White_Space` property: the ASCII tab,
/// line feed, vertical tab, form feed, carriage return and space, NEL,
/// no-break space, Ogham space mark, the spaces U+2000 to U+200A, the line
/// and paragraph separators, narrow no-break space, medium mathematical
/// space and ideographic space.
pub closed spec fn char_is_whitespace(c: char) -> bool {
    ('\u{9}' <= c && c <= '\u{D}') || c == ' ' || c == '\u{85}' || c == '\u{A0}' || c == '\u{1680}'
        || ('\u{2000}' <= c && c <= '\u{200A}') || c == '\u{2028}' || c == '\u{2029}' || c
        == '\u{202F}' || c == '\u{205F}' || c == '\u{3000}'
}

/// The Unicode lowercase mapping of a whole string, as computed by
/// `str::to_lowercase`.
pub uninterp spec fn str_to_lowercase(s: Seq<char>) -> Seq<char>;

/// Calls `char::is_alphabetic`; the result is the Unicode property
/// `char_is_alphabetic` names. Nothing more is claimed of the table.
#[verifier::external_body]
pub(crate) fn is_alphabetic(c: char) -> (r: bool)
    ensures
        r == char_is_alphabetic(c),
{
    c.is_alphabetic()
}

/// Whether `c` is white space (the Unicode `White_Space` property, as
/// `char::is_whitespace` decides).
pub(crate) fn is_whitespace(c: char) -> (r: bool)
    ensures
        r == char_is_whitespace(c),
{
    ('\u{9}' <= c && c <= '\u{D}') || c == ' ' || c == '\u{85}' || c == '\u{A0}' || c == '\u{1680}'
        || ('\u{2000}' <= c && c <= '\u{200A}') || c == '\u{2028}' || c == '\u{2029}' || c
        == '\u{202F}' || c == '\u{205F}' || c == '\u{3000}'
}

/// Calls `str::to_lowercase` on the characters of `s`; the result is
/// the mapping `str_to_lowercase` names.
#[verifier::external_body]
pub(crate) fn to_lowercase(s: &str) -> (r: String)
    ensures
        r@ == str_to_lowercase(s@),
{
    s.to_lowercase()
}

/// Collects the characters of `s` (`str::chars`), in order.
#[verifier::external_body]
pub(crate) fn chars_of(s: &str) -> (r: Vec<char>)
    ensures
        r@ == s@,
{
    s.chars().collect()
}

/// Builds a `String` holding exactly the characters of `v`
/// (`String: FromIterator<char>`).
#[verifier::external_body]
pub(crate) fn string_from_chars(v: &[char]) -> (r: String)
    ensures
        r@ == v@,
{
    v.iter().collect()
}

/// Builds a `String` holding exactly the characters `v[lo..hi]`
/// (`String: FromIterator<char>`).
#[verifier::external_body]
pub(crate) fn string_from_range(v: &[char], lo: usize, hi: usize) -> (r: String)
    requires
        lo <= hi <= v@.len(),
    ensures
        r@ == v@.subrange(lo as int, hi as int),
{
    v[lo..hi].iter().collect()
}

} // verus!

verus! {

/// `s` without its leading whitespace.
pub open spec fn trim_start(s: Seq<char>) -> Seq<char>
    decreases s.len(),
{
    if s.len() > 0 && char_is_whitespace(s[0]) {
        trim_start(s.drop_first())
    } else {
        s
    }
}

/// `s` without its trailing whitespace.
pub open spec fn trim_end(s: Seq<char>) -> Seq<char>
    decreases s.len(),
{
    if s.len() > 0 && char_is_whitespace(s.last()) {
        trim_end(s.drop_last())
    } else {
        s
    }
}

/// `s` without leading and trailing whitespace (`str::trim`).
pub open spec fn spec_trim(s: Seq<char>) -> Seq<char> {
    trim_end(trim_start(s))
}

/// The range `[lo, hi)` of `v` that remains after trimming whitespace
/// from both ends.
pub fn trim_range(v: &[char], lo: usize, hi: usize) -> (r: (usize, usize))
    requires
        lo <= hi <= v@.len(),
    ensures
        lo <= r.0 <= r.1 <= hi,
        v@.subrange(r.0 as int, r.1 as int) == spec_trim(v@.subrange(lo as int, hi as int)),
{
    let mut a = lo;
    while a < hi && is_whitespace(v[a])
        invariant
            lo <= a <= hi <= v@.len(),
            trim_start(v@.subrange(a as int, hi as int)) == trim_start(
                v@.subrange(lo as int, hi as int),
            ),
        decreases hi - a,
    {
        assert(v@.subrange(a as int, hi as int).drop_first() =~= v@.subrange(a + 1, hi as int));
        a += 1;
    }
    let mut b = hi;
    while b > a && is_whitespace(v[b - 1])
        invariant
            lo <= a <= b <= hi <= v@.len(),
            trim_end(v@.subrange(a as int, b as int)) == trim_end(v@.subrange(a as int, hi as int)),
        decreases b,
    {
        assert(v@.subrange(a as int, b as int).drop_last() =~= v@.subrange(a as int, b - 1));
        b -= 1;
    }
    (a, b)
}

/// Index of the first occurrence of `c` in `s`, or `s.len()` if none.
pub open spec fn first_index_of(s: Seq<char>, c: char) -> int
    decreases s.len(),
{
    if s.len() == 0 {
        0
    } else if s[0] == c {
        0
    } else {
        1 + first_index_of(s.drop_first(), c)
    }
}

/// `first_index_of` is within the sequence, no earlier position holds
/// `c`, and the position it names, if any, does.
pub proof fn lemma_first_index_of(s: Seq<char>, c: char)
    ensures
        0 <= first_index_of(s, c) <= s.len(),
        forall|k: int| 0 <= k < first_index_of(s, c) ==> s[k] != c,
        first_index_of(s, c) < s.len() ==> s[first_index_of(s, c)] == c,
    decreases s.len(),
{
    if s.len() > 0 && s[0] != c {
        lemma_first_index_of(s.drop_first(), c);
        assert forall|k: int| 0 <= k < first_index_of(s, c) implies s[k] != c by {
            if k > 0 {
                assert(s[k] == s.drop_first()[k - 1]);
            }
        }
    }
}

/// `first_index_of` is the first position holding `c`.
pub proof fn lemma_first_index_of_unique(s: Seq<char>, c: char, i: int)
    requires
        0 <= i <= s.len(),
        forall|k: int| 0 <= k < i ==> s[k] != c,
        i < s.len() ==> s[i] == c,
    ensures
        first_index_of(s, c) == i,
    decreases s.len(),
{
    if s.len() > 0 && s[0] != c {
        lemma_first_index_of_unique(s.drop_first(), c, i - 1);
    }
}

/// A line with the `\r` of a `\r\n` ending removed.
pub open spec fn strip_cr(line: Seq<char>) -> Seq<char> {
    if line.len() > 0 && line.last() == '\r' {
        line.drop_last()
    } else {
        line
    }
}

/// The lines of `s` as `str::lines` yields them: split at `\n`, a `\r`
/// before the `\n` dropped, no empty last line after a final `\n`.
pub open spec fn spec_lines(s: Seq<char>) -> Seq<Seq<char>>
    decreases s.len(),
{
    if s.len() == 0 {
        Seq::empty()
    } else {
        let i = first_index_of(s, '\n');
        if i >= s.len() {
            seq![s]
        } else {
            proof {
                lemma_first_index_of(s, '\n');
            }
            seq![strip_cr(s.take(i))] + spec_lines(s.skip(i + 1))
        }
    }
}

/// Whether `s` holds any whitespace character.
pub open spec fn has_whitespace(s: Seq<char>) -> bool {
    exists|k: int| 0 <= k < s.len() && char_is_whitespace(#[trigger] s[k])
}

pub fn contains_whitespace(s: &str) -> (r: bool)
    ensures
        r == has_whitespace(s@),
{
    let v = chars_of(s);
    let mut i: usize = 0;
    while i < v.len()
        invariant
            v@ == s@,
            i <= v@.len(),
            forall|k: int| 0 <= k < i ==> !char_is_whitespace(#[trigger] v@[k]),
        decreases v@.len() - i,
    {
        if is_whitespace(v[i]) {
            return true;
        }
        i += 1;
    }
    false
}


/// The characters of `v` in each of the ranges `r`.
pub open spec fn range_views(v: Seq<char>, r: Seq<(usize, usize)>) -> Seq<Seq<char>> {
    r.map_values(|p: (usize, usize)| v.subrange(p.0 as int, p.1 as int))
}

/// Every range of `r` lies within `[lo, hi]`.
pub open spec fn ranges_within(r: Seq<(usize, usize)>, lo: int, hi: int) -> bool {
    forall|k: int| 0 <= k < r.len() ==> lo <= (#[trigger] r[k]).0 <= r[k].1 <= hi
}

/// `s` cut at every `sep`, as `str::split` with a `char` pattern does:
/// one more piece than there are separators, empty pieces kept.
pub open spec fn spec_split(s: Seq<char>, sep: char) -> Seq<Seq<char>>
    decreases s.len(),
{
    let i = first_index_of(s, sep);
    if i >= s.len() {
        seq![s]
    } else {
        proof {
            lemma_first_index_of(s, sep);
        }
        seq![s.take(i)] + spec_split(s.skip(i + 1), sep)
    }
}

/// The ranges of the lines of `v`, as [`spec_lines`] cuts them.
pub fn line_bounds(v: &Vec<char>) -> (r: Vec<(usize, usize)>)
    ensures
        ranges_within(r@, 0, v@.len() as int),
        range_views(v@, r@) == spec_lines(v@),
{
    let mut out: Vec<(usize, usize)> = Vec::new();
    let mut ls: usize = 0;
    let mut i: usize = 0;
    assert(v@.skip(0) =~= v@);
    assert(range_views(v@, out@) =~= Seq::<Seq<char>>::empty());
    while i < v.len()
        invariant
            ls <= i <= v@.len(),
            forall|k: int| ls <= k < i ==> v@[k] != '\n',
            ranges_within(out@, 0, ls as int),
            range_views(v@, out@) + spec_lines(v@.skip(ls as int)) == spec_lines(v@),
        decreases v@.len() - i,
    {
        if v[i] == '\n' {
            let end = if i > ls && v[i - 1] == '\r' {
                i - 1
            } else {
                i
            };
            let ghost rest = v@.skip(ls as int);
            let ghost before = range_views(v@, out@);
            proof {
                lemma_first_index_of_unique(rest, '\n', i - ls);
                assert(rest.skip(i - ls + 1) =~= v@.skip(i + 1));
                assert(strip_cr(rest.take(i - ls)) =~= v@.subrange(ls as int, end as int));
                let lines = spec_lines(rest);
                assert(lines == seq![v@.subrange(ls as int, end as int)] + spec_lines(v@.skip(i + 1)));
            }
            out.push((ls, end));
            proof {
                assert(range_views(v@, out@) =~= before.push(v@.subrange(ls as int, end as int)));
                assert(range_views(v@, out@) + spec_lines(v@.skip(i + 1)) =~= before + spec_lines(rest));
            }
            ls = i + 1;
        }
        i += 1;
    }
    if ls < v.len() {
        let ghost rest = v@.skip(ls as int);
        let ghost before = range_views(v@, out@);
        proof {
            lemma_first_index_of_unique(rest, '\n', rest.len() as int);
            assert(rest =~= v@.subrange(ls as int, v@.len() as int));
            assert(spec_lines(rest) == seq![rest]);
        }
        out.push((ls, v.len()));
        proof {
            assert(range_views(v@, out@) =~= before + spec_lines(rest));
        }
    } else {
        assert(v@.skip(ls as int) =~= Seq::<char>::empty());
        assert(range_views(v@, out@) + Seq::<Seq<char>>::empty() =~= range_views(v@, out@));
    }
    out
}

/// The ranges of the pieces of `v[lo..hi]` cut at every `sep`, as
/// [`spec_split`] cuts them.
pub fn split_bounds(v: &Vec<char>, lo: usize, hi: usize, sep: char) -> (r: Vec<(usize, usize)>)
    requires
        lo <= hi <= v@.len(),
    ensures
        ranges_within(r@, lo as int, hi as int),
        range_views(v@, r@) == spec_split(v@.subrange(lo as int, hi as int), sep),
{
    let mut out: Vec<(usize, usize)> = Vec::new();
    let mut start = lo;
    let mut i = lo;
    assert(range_views(v@, out@) =~= Seq::<Seq<char>>::empty());
    assert(Seq::<Seq<char>>::empty() + spec_split(v@.subrange(lo as int, hi as int), sep) =~= spec_split(
        v@.subrange(lo as int, hi as int),
        sep,
    ));
    while i < hi
        invariant
            lo <= start <= i <= hi <= v@.len(),
            forall|k: int| start <= k < i ==> v@[k] != sep,
            ranges_within(out@, lo as int, start as int),
            range_views(v@, out@) + spec_split(v@.subrange(start as int, hi as int), sep) == spec_split(
                v@.subrange(lo as int, hi as int),
                sep,
            ),
        decreases hi - i,
    {
        if v[i] == sep {
            let ghost rest = v@.subrange(start as int, hi as int);
            let ghost before = range_views(v@, out@);
            proof {
                lemma_first_index_of_unique(rest, sep, i - start);
                assert(rest.skip(i - start + 1) =~= v@.subrange(i + 1, hi as int));
                assert(rest.take(i - start) =~= v@.subrange(start as int, i as int));
            }
            out.push((start, i));
            proof {
                assert(range_views(v@, out@) =~= before.push(v@.subrange(start as int, i as int)));
                assert(range_views(v@, out@) + spec_split(v@.subrange(i + 1, hi as int), sep)
                    =~= before + spec_split(rest, sep));
            }
            start = i + 1;
        }
        i += 1;
    }
    let ghost rest = v@.subrange(start as int, hi as int);
    let ghost before = range_views(v@, out@);
    proof {
        lemma_first_index_of_unique(rest, sep, rest.len() as int);
    }
    out.push((start, hi));
    proof {
        assert(range_views(v@, out@) =~= before + spec_split(rest, sep));
    }
    out
}


/// Whether two strings hold the same characters.
pub fn str_eq(a: &str, b: &str) -> (r: bool)
    ensures
        r == (a@ == b@),
{
    let x = chars_of(a);
    let y = chars_of(b);
    if x.len() != y.len() {
        return false;
    }
    let mut i: usize = 0;
    while i < x.len()
        invariant
            x@ == a@,
            y@ == b@,
            x@.len() == y@.len(),
            i <= x@.len(),
            forall|k: int| 0 <= k < i ==> x@[k] == y@[k],
        decreases x@.len() - i,
    {
        if x[i] != y[i] {
            return false;
        }
        i += 1;
    }
    assert(x@ =~= y@);
    true
}


/// The number of UTF-8 bytes of `s`.
pub open spec fn byte_len(s: Seq<char>) -> nat {
    vstd::utf8::encode_utf8(s).len()
}

/// The number of UTF-8 bytes of one character.
pub open spec fn char_width(c: char) -> nat {
    vstd::utf8::encode_scalar(c as u32).len()
}

/// Encoding one more character appends its bytes.
pub proof fn lemma_encode_utf8_push(s: Seq<char>, c: char)
    ensures
        vstd::utf8::encode_utf8(s.push(c)) == vstd::utf8::encode_utf8(s) + vstd::utf8::encode_scalar(
            c as u32,
        ),
    decreases s.len(),
{
    if s.len() == 0 {
        assert(s.push(c).drop_first() =~= Seq::<char>::empty());
        assert(s.push(c)[0] == c);
        assert(vstd::utf8::encode_utf8(Seq::<char>::empty()) =~= Seq::<u8>::empty());
        assert(vstd::utf8::encode_utf8(s) =~= Seq::<u8>::empty());
        assert(vstd::utf8::encode_utf8(s.push(c)) =~= vstd::utf8::encode_scalar(c as u32));
    } else {
        assert(s.push(c).drop_first() =~= s.drop_first().push(c));
        lemma_encode_utf8_push(s.drop_first(), c);
        assert(vstd::utf8::encode_utf8(s.push(c)) =~= vstd::utf8::encode_utf8(s)
            + vstd::utf8::encode_scalar(c as u32));
    }
}

/// The bytes of a prefix grow by one character's width per character.
pub proof fn lemma_byte_len_take(s: Seq<char>, k: int)
    requires
        0 <= k < s.len(),
    ensures
        byte_len(s.take(k + 1)) == byte_len(s.take(k)) + char_width(s[k]),
        1 <= char_width(s[k]) <= 4,
{
    assert(s.take(k + 1) =~= s.take(k).push(s[k]));
    lemma_encode_utf8_push(s.take(k), s[k]);
}

/// Longer prefixes have strictly more bytes.
pub proof fn lemma_byte_len_take_increasing(s: Seq<char>, j: int, k: int)
    requires
        0 <= j < k <= s.len(),
    ensures
        byte_len(s.take(j)) < byte_len(s.take(k)),
    decreases k - j,
{
    lemma_byte_len_take(s, k - 1);
    if j < k - 1 {
        lemma_byte_len_take_increasing(s, j, k - 1);
    }
}

/// The UTF-8 width of `c`.
pub fn char_width_of(c: char) -> (r: usize)
    ensures
        r == char_width(c),
        1 <= r <= 4,
{
    proof {
        vstd::utf8::char_is_scalar(c);
    }
    let u = c as u32;
    if u <= 0x7F {
        1
    } else if u <= 0x7FF {
        2
    } else if u <= 0xFFFF {
        3
    } else {
        4
    }
}

/// Byte offset `b` falls between two characters of `s` (or at an end).
pub open spec fn is_char_start(s: Seq<char>, b: int) -> bool {
    exists|k: int| 0 <= k <= s.len() && byte_len(s.take(k)) == b
}

/// The number of characters before byte offset `b`.
pub open spec fn char_index_of_byte(s: Seq<char>, b: int) -> int {
    choose|k: int| 0 <= k <= s.len() && byte_len(s.take(k)) == b
}

/// At most one prefix has a given byte length.
pub proof fn lemma_char_index_of_byte(s: Seq<char>, k: int)
    requires
        0 <= k <= s.len(),
    ensures
        char_index_of_byte(s, byte_len(s.take(k)) as int) == k,
{
    let b = byte_len(s.take(k)) as int;
    let j = char_index_of_byte(s, b);
    assert(0 <= j <= s.len() && byte_len(s.take(j)) == b);
    if j < k {
        lemma_byte_len_take_increasing(s, j, k);
    } else if k < j {
        lemma_byte_len_take_increasing(s, k, j);
    }
}

/// The character index of byte offset `b`, which must fall between
/// characters.
pub fn char_index_at(v: &Vec<char>, b: usize) -> (r: usize)
    requires
        is_char_start(v@, b as int),
    ensures
        r <= v@.len(),
        byte_len(v@.take(r as int)) == b,
        r == char_index_of_byte(v@, b as int),
{
    let ghost w = choose|k: int| 0 <= k <= v@.len() && byte_len(v@.take(k)) == b;
    let mut i: usize = 0;
    let mut acc: usize = 0;
    assert(v@.take(0) =~= Seq::<char>::empty());
    while i < v.len() && acc < b
        invariant
            0 <= w <= v@.len(),
            byte_len(v@.take(w)) == b,
            i <= v@.len(),
            acc == byte_len(v@.take(i as int)),
            i <= w,
        decreases v@.len() - i,
    {
        proof {
            lemma_byte_len_take(v@, i as int);
            if w == i {
                assert(false);
            }
            if i + 1 < w {
                lemma_byte_len_take_increasing(v@, i + 1, w);
            }
        }
        acc = acc + char_width_of(v[i]);
        i += 1;
    }
    proof {
        if i < w {
            lemma_byte_len_take_increasing(v@, i as int, w);
        }
        lemma_char_index_of_byte(v@, i as int);
    }
    i
}

/// The byte offset of character `k` of `v`.
pub fn byte_offset_of(v: &Vec<char>, k: usize) -> (r: usize)
    requires
        k <= v@.len(),
        byte_len(v@) <= usize::MAX,
    ensures
        r == byte_len(v@.take(k as int)),
{
    let mut i: usize = 0;
    let mut acc: usize = 0;
    assert(v@.take(0) =~= Seq::<char>::empty());
    assert(v@.take(v@.len() as int) =~= v@);
    while i < k
        invariant
            k <= v@.len(),
            byte_len(v@) <= usize::MAX,
            v@.take(v@.len() as int) == v@,
            i <= k,
            acc == byte_len(v@.take(i as int)),
        decreases k - i,
    {
        proof {
            lemma_byte_len_take(v@, i as int);
            if i + 1 < v@.len() {
                lemma_byte_len_take_increasing(v@, i + 1, v@.len() as int);
            }
        }
        acc = acc + char_width_of(v[i]);
        i += 1;
    }
    acc
}


/// The characters of `line` and the character index of byte offset
/// `cursor_byte` (clamped to the line's end), which must fall between
/// characters.
pub fn chars_and_cursor(line: &str, cursor_byte: usize) -> (r: (Vec<char>, usize))
    requires
        is_char_start(
            line@,
            if cursor_byte < byte_len(line@) {
                cursor_byte as int
            } else {
                byte_len(line@) as int
            },
        ),
    ensures
        r.0@ == line@,
        r.1 <= line@.len(),
        r.1 == char_index_of_byte(
            line@,
            if cursor_byte < byte_len(line@) {
                cursor_byte as int
            } else {
                byte_len(line@) as int
            },
        ),
{
    let v = chars_of(line);
    let total = line.as_bytes().len();
    let m = if cursor_byte < total {
        cursor_byte
    } else {
        total
    };
    let ci = char_index_at(&v, m);
    (v, ci)
}

} // verus!
