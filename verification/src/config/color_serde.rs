//! The text form of a color in saved settings: `#rrggbb` for opaque
//! colors, `#rrggbbaa` otherwise, lower-case hex. Reading accepts either
//! length (6 digits mean fully opaque), so data saved before alpha was
//! kept still loads.

use vstd::prelude::*;
use vstd::utf8::{encode_utf8, is_char_boundary};
use crate::config::settings::Rgba;
use crate::text::{chars_of, string_from_chars, string_from_range};

verus! {

/// The lower-case hex digit for `n < 16`.
pub open spec fn hex_digit_char(n: u8) -> char {
    if n < 10 {
        (48 + n) as char
    } else {
        (87 + n) as char
    }
}

/// Two lower-case hex digits for a byte (`{:02x}`).
pub open spec fn hex2(n: u8) -> Seq<char> {
    seq![hex_digit_char(n / 16), hex_digit_char(n % 16)]
}

/// The text form of a color: `#` and two hex digits per channel, alpha
/// left out when it is 255.
pub open spec fn spec_color_hex(c: Rgba) -> Seq<char> {
    let body = hex2(c.r) + hex2(c.g) + hex2(c.b);
    seq!['#'] + (if c.a == 255 {
        body
    } else {
        body + hex2(c.a)
    })
}

/// `s` without its leading `#` characters (`trim_start_matches('#')`).
pub open spec fn trim_hashes(s: Seq<char>) -> Seq<char>
    decreases s.len(),
{
    if s.len() > 0 && s[0] == '#' {
        trim_hashes(s.drop_first())
    } else {
        s
    }
}

/// The value of an ASCII hex digit, either case.
pub open spec fn hex_value(b: u8) -> Option<u8> {
    if 48 <= b <= 57 {
        Some((b - 48) as u8)
    } else if 97 <= b <= 102 {
        Some((b - 87) as u8)
    } else if 65 <= b <= 70 {
        Some((b - 55) as u8)
    } else {
        None
    }
}

/// A two-byte field read as `u8::from_str_radix(field, 16)` reads it: a
/// `+` and one digit, or two digits.
pub open spec fn parse_hex_pair(p: Seq<u8>) -> Option<u8> {
    if p[0] == 43 {
        hex_value(p[1])
    } else {
        match (hex_value(p[0]), hex_value(p[1])) {
            (Some(h), Some(l)) => Some((h * 16 + l) as u8),
            _ => None,
        }
    }
}

/// The message for text too short to hold a color.
pub open spec fn short_hex_message(hex: Seq<char>) -> Seq<char> {
    "invalid color hex '"@ + hex + "': expected 6 or 8 hex digits"@
}

/// The message for a field that is not a hex number.
pub open spec fn bad_digit_message() -> Seq<char> {
    "invalid digit found in string"@
}

/// The bytes of `s` once its leading `#`s are gone.
pub open spec fn hex_bytes(s: Seq<char>) -> Seq<u8> {
    encode_utf8(trim_hashes(s))
}

/// Reading a color: the text after the leading `#`s needs at least six
/// bytes; bytes `0..2`, `2..4`, `4..6` are red, green and blue, and
/// `6..8`, when present, alpha (255 otherwise).
pub open spec fn spec_parse_color(s: Seq<char>) -> Result<Rgba, Seq<char>> {
    let b = hex_bytes(s);
    if b.len() < 6 {
        Err(short_hex_message(trim_hashes(s)))
    } else {
        match parse_hex_pair(b.subrange(0, 2)) {
            None => Err(bad_digit_message()),
            Some(r) => match parse_hex_pair(b.subrange(2, 4)) {
                None => Err(bad_digit_message()),
                Some(g) => match parse_hex_pair(b.subrange(4, 6)) {
                    None => Err(bad_digit_message()),
                    Some(bl) => if b.len() >= 8 {
                        match parse_hex_pair(b.subrange(6, 8)) {
                            None => Err(bad_digit_message()),
                            Some(a) => Ok(Rgba { r, g, b: bl, a }),
                        }
                    } else {
                        Ok(Rgba { r, g, b: bl, a: 255 })
                    },
                },
            },
        }
    }
}

/// Every field that reading reaches is cut at character boundaries
/// (reading stops at the first bad field).
pub open spec fn fields_on_char_boundaries(s: Seq<char>) -> bool {
    let b = hex_bytes(s);
    b.len() >= 6 ==> {
        &&& is_char_boundary(b, 2)
        &&& parse_hex_pair(b.subrange(0, 2)) is Some ==> {
            &&& is_char_boundary(b, 4)
            &&& parse_hex_pair(b.subrange(2, 4)) is Some ==> {
                &&& is_char_boundary(b, 6)
                &&& (parse_hex_pair(b.subrange(4, 6)) is Some && b.len() >= 8) ==> is_char_boundary(b, 8)
            }
        }
    }
}

fn hex_digit(n: u8) -> (c: char)
    requires
        n < 16,
    ensures
        c == hex_digit_char(n),
{
    if n < 10 {
        (48 + n) as char
    } else {
        (87 + n) as char
    }
}

fn push_hex2(out: &mut Vec<char>, n: u8)
    ensures
        final(out)@ == old(out)@ + hex2(n),
{
    out.push(hex_digit(n / 16));
    out.push(hex_digit(n % 16));
    assert(final(out)@ =~= old(out)@ + hex2(n));
}

/// The text form of `color` (`#rrggbb`, or `#rrggbbaa` when it is not
/// fully opaque).
pub fn serialize(color: &Rgba) -> (r: String)
    ensures
        r@ == spec_color_hex(*color),
{
    let mut v: Vec<char> = Vec::new();
    v.push('#');
    push_hex2(&mut v, color.r);
    push_hex2(&mut v, color.g);
    push_hex2(&mut v, color.b);
    if color.a != 255 {
        push_hex2(&mut v, color.a);
    }
    let ghost c = *color;
    let ghost body = hex2(c.r) + hex2(c.g) + hex2(c.b);
    assert(v@ =~= seq!['#'] + (if c.a == 255 {
        body
    } else {
        body + hex2(c.a)
    }));
    string_from_chars(&v)
}

fn hex_value_of(b: u8) -> (r: Option<u8>)
    ensures
        r == hex_value(b),
{
    if 48 <= b && b <= 57 {
        Some(b - 48)
    } else if 97 <= b && b <= 102 {
        Some(b - 87)
    } else if 65 <= b && b <= 70 {
        Some(b - 55)
    } else {
        None
    }
}

fn parse_pair(b0: u8, b1: u8) -> (r: Option<u8>)
    ensures
        r == parse_hex_pair(seq![b0, b1]),
{
    if b0 == 43 {
        return hex_value_of(b1);
    }
    match (hex_value_of(b0), hex_value_of(b1)) {
        (Some(h), Some(l)) => Some(h * 16 + l),
        _ => None,
    }
}

fn bad_digit() -> (r: String)
    ensures
        r@ == bad_digit_message(),
{
    "invalid digit found in string".to_owned()
}

/// Reads a color written as [`serialize`] writes it, or with six digits
/// only (fully opaque). Returns the error message otherwise.
pub fn deserialize(hex: &str) -> (r: Result<Rgba, String>)
    requires
        fields_on_char_boundaries(hex@),
    ensures
        match r {
            Ok(c) => spec_parse_color(hex@) == Ok::<Rgba, Seq<char>>(c),
            Err(m) => spec_parse_color(hex@) == Err::<Rgba, Seq<char>>(m@),
        },
{
    let v = chars_of(hex);
    let mut k: usize = 0;
    assert(v@.skip(0) =~= v@);
    while k < v.len() && v[k] == '#'
        invariant
            v@ == hex@,
            k <= v@.len(),
            trim_hashes(v@.skip(k as int)) == trim_hashes(v@),
        decreases v@.len() - k,
    {
        assert(v@.skip(k as int).drop_first() =~= v@.skip(k + 1));
        k += 1;
    }
    assert(v@.subrange(k as int, v@.len() as int) =~= v@.skip(k as int));
    let trimmed = string_from_range(&v, k, v.len());
    assert(trimmed@ == trim_hashes(hex@));
    let b = trimmed.as_str().as_bytes();
    let ghost bs = hex_bytes(hex@);
    assert(b@ == bs);
    if b.len() < 6 {
        let mut m = chars_of("invalid color hex '");
        let mut t = chars_of(trimmed.as_str());
        let mut tail = chars_of("': expected 6 or 8 hex digits");
        m.append(&mut t);
        m.append(&mut tail);
        return Err(string_from_chars(&m));
    }
    assert(bs.subrange(0, 2) =~= seq![b[0], b[1]]);
    assert(bs.subrange(2, 4) =~= seq![b[2], b[3]]);
    assert(bs.subrange(4, 6) =~= seq![b[4], b[5]]);
    let r = match parse_pair(b[0], b[1]) {
        Some(x) => x,
        None => {
            return Err(bad_digit());
        },
    };
    let g = match parse_pair(b[2], b[3]) {
        Some(x) => x,
        None => {
            return Err(bad_digit());
        },
    };
    let bl = match parse_pair(b[4], b[5]) {
        Some(x) => x,
        None => {
            return Err(bad_digit());
        },
    };
    if b.len() >= 8 {
        assert(bs.subrange(6, 8) =~= seq![b[6], b[7]]);
        let a = match parse_pair(b[6], b[7]) {
            Some(x) => x,
            None => {
                return Err(bad_digit());
            },
        };
        Ok(Rgba { r, g, b: bl, a })
    } else {
        Ok(Rgba { r, g, b: bl, a: 255 })
    }
}

// ---------------------------------------------------------------------
// Round trip
// ---------------------------------------------------------------------

pub open spec fn is_ascii_seq(s: Seq<char>) -> bool {
    forall|k: int| 0 <= k < s.len() ==> (#[trigger] s[k] as u32) < 128
}

proof fn lemma_encode_ascii(s: Seq<char>)
    requires
        is_ascii_seq(s),
    ensures
        encode_utf8(s) == s.map_values(|c: char| (c as u32) as u8),
        forall|k: int| 0 <= k < s.len() ==> (#[trigger] encode_utf8(s)[k]) == (s[k] as u32) as u8,
        encode_utf8(s).len() == s.len(),
    decreases s.len(),
{
    if s.len() > 0 {
        let c = s[0] as u32;
        assert(c < 128);
        assert((c & 0x7F) as u8 == c as u8) by (bit_vector)
            requires
                c < 128,
        ;
        assert(is_ascii_seq(s.drop_first())) by {
            assert forall|k: int| 0 <= k < s.drop_first().len() implies (#[trigger] s.drop_first()[k] as u32) < 128 by {
                assert(s.drop_first()[k] == s[k + 1]);
            }
        }
        lemma_encode_ascii(s.drop_first());
        assert(encode_utf8(s) =~= s.map_values(|c: char| (c as u32) as u8));
    } else {
        assert(encode_utf8(s) =~= s.map_values(|c: char| (c as u32) as u8));
    }
}

proof fn lemma_ascii_boundaries(s: Seq<char>, i: int)
    requires
        is_ascii_seq(s),
        0 <= i <= s.len(),
    ensures
        is_char_boundary(encode_utf8(s), i),
{
    lemma_encode_ascii(s);
    let b = encode_utf8(s);
    vstd::utf8::encode_utf8_valid_utf8(s);
    if i == s.len() {
        vstd::utf8::is_char_boundary_start_end_of_seq(b);
    } else {
        vstd::utf8::is_char_boundary_iff_not_is_continuation_byte(b, i);
        let x = b[i];
        let v = s[i] as u32;
        assert(v < 128);
        assert((v as u8) < 128) by (bit_vector)
            requires
                v < 128,
        ;
        assert(x < 128);
        assert(!vstd::utf8::is_continuation_byte(x)) by (bit_vector)
            requires
                x < 128,
        ;
    }
}

proof fn lemma_hex2_reads_back(n: u8)
    ensures
        is_ascii_seq(hex2(n)),
        hex2(n)[0] != '#',
        parse_hex_pair(hex2(n).map_values(|c: char| (c as u32) as u8)) == Some(n),
{
    let h = hex2(n);
    let hi = n / 16;
    let lo = n % 16;
    let bytes = h.map_values(|c: char| (c as u32) as u8);
    assert(bytes[0] == (hex_digit_char(hi) as u32) as u8);
    assert(bytes[1] == (hex_digit_char(lo) as u32) as u8);
    assert(hex_value((hex_digit_char(hi) as u32) as u8) == Some(hi));
    assert(hex_value((hex_digit_char(lo) as u32) as u8) == Some(lo));
    assert(hi * 16 + lo == n);
}

/// Reading back what [`serialize`] writes gives the same color, and the
/// text is always cut at character boundaries where reading looks.
pub proof fn lemma_color_hex_round_trip(c: Rgba)
    ensures
        fields_on_char_boundaries(spec_color_hex(c)),
        spec_parse_color(spec_color_hex(c)) == Ok::<Rgba, Seq<char>>(c),
{
    let s = spec_color_hex(c);
    let body = hex2(c.r) + hex2(c.g) + hex2(c.b);
    let digits = if c.a == 255 {
        body
    } else {
        body + hex2(c.a)
    };
    lemma_hex2_reads_back(c.r);
    lemma_hex2_reads_back(c.g);
    lemma_hex2_reads_back(c.b);
    lemma_hex2_reads_back(c.a);
    assert(s.drop_first() =~= digits);
    assert(trim_hashes(digits) == digits);
    assert(trim_hashes(s) == digits);
    assert(is_ascii_seq(digits)) by {
        assert forall|k: int| 0 <= k < digits.len() implies (#[trigger] digits[k] as u32) < 128 by {
            if k < 2 {
                assert(digits[k] == hex2(c.r)[k]);
            } else if k < 4 {
                assert(digits[k] == hex2(c.g)[k - 2]);
            } else if k < 6 {
                assert(digits[k] == hex2(c.b)[k - 4]);
            } else {
                assert(digits[k] == hex2(c.a)[k - 6]);
            }
        }
    }
    lemma_encode_ascii(digits);
    let b = encode_utf8(digits);
    assert(b.subrange(0, 2) =~= hex2(c.r).map_values(|c: char| (c as u32) as u8));
    assert(b.subrange(2, 4) =~= hex2(c.g).map_values(|c: char| (c as u32) as u8));
    assert(b.subrange(4, 6) =~= hex2(c.b).map_values(|c: char| (c as u32) as u8));
    if c.a != 255 {
        assert(b.subrange(6, 8) =~= hex2(c.a).map_values(|c: char| (c as u32) as u8));
        lemma_ascii_boundaries(digits, 8);
    }
    lemma_ascii_boundaries(digits, 2);
    lemma_ascii_boundaries(digits, 4);
    lemma_ascii_boundaries(digits, 6);
}

} // verus!
