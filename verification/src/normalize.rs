//! Reading normalization: katakana readings are converted to hiragana after
//! a UTF-8 encode/decode round trip and NFKC normalization, and
//! Unicode-escape sequences written as text are decoded to their characters.

use vstd::prelude::*;

use unicode_normalization::UnicodeNormalization;

use crate::text::{chars_of, string_of};
use vstd::utf8::{decode_utf8, encode_utf8, valid_utf8};

verus! {

/// Whether the bytes begin with the UTF-8 byte-order mark.
pub open spec fn has_utf8_bom(b: Seq<u8>) -> bool {
    b.len() >= 3 && b[0] == 0xEF && b[1] == 0xBB && b[2] == 0xBF
}

/// Relies on encoding_rs's `Encoding::encode` on UTF-8: encoding a string to
/// UTF-8 hands back exactly the string's own bytes.
#[verifier::external_body]
fn utf8_encode(text: &str) -> (r: Vec<u8>)
    ensures
        r@ == encode_utf8(text@),
{
    let (cow, _, _) = encoding_rs::UTF_8.encode(text);
    cow.into_owned()
}

/// Relies on encoding_rs's `Encoding::decode` on UTF-8: after sniffing off a
/// leading byte-order mark, valid UTF-8 decodes to its own characters.
#[verifier::external_body]
fn utf8_decode(bytes: &Vec<u8>) -> (r: String)
    ensures
        valid_utf8(bytes@) && !has_utf8_bom(bytes@) ==> r@ == decode_utf8(bytes@),
        valid_utf8(bytes@) && has_utf8_bom(bytes@) ==> r@ == decode_utf8(bytes@.skip(3)),
{
    let (cow, _, _) = encoding_rs::UTF_8.decode(bytes);
    cow.into_owned()
}

/// The NFKC normalization of a character sequence.
pub uninterp spec fn nfkc_of(s: Seq<char>) -> Seq<char>;

/// Relies on unicode-normalization's `nfkc`: the NFKC normalization of the
/// text, a function of its characters alone.
#[verifier::external_body]
fn nfkc(text: &str) -> (r: String)
    ensures
        r@ == nfkc_of(text@),
{
    text.nfkc().collect::<String>()
}

/// What the UTF-8 encode/decode round trip leaves of a string: its own
/// characters, after removal of a leading byte-order mark if its bytes
/// carry one.
pub open spec fn roundtrip_view(s: Seq<char>) -> Seq<char> {
    let b = encode_utf8(s);
    if has_utf8_bom(b) {
        decode_utf8(b.skip(3))
    } else {
        decode_utf8(b)
    }
}

/// The katakana-to-hiragana character mapping: the main katakana block
/// shifts down to hiragana, and the four katakana letters with no hiragana
/// form map to their closest hiragana.
pub open spec fn kata_to_hira_char(c: char) -> char {
    let u = c as u32;
    if 0x30A1 <= u && u <= 0x30F6 {
        (u - 0x60) as char
    } else if c == 'ヷ' {
        'わ'
    } else if c == 'ヸ' {
        'ゐ'
    } else if c == 'ヹ' {
        'ゑ'
    } else if c == 'ヺ' {
        'を'
    } else {
        c
    }
}

/// The archaic kana ゐ and ゑ are written as their modern readings.
pub open spec fn wi_we_char(c: char) -> char {
    if c == 'ゐ' {
        'い'
    } else if c == 'ゑ' {
        'え'
    } else {
        c
    }
}

/// The full per-character normalization applied to a reading.
pub open spec fn hira_char(c: char) -> char {
    wi_we_char(kata_to_hira_char(c))
}

/// What `convert_to_hiragana` returns: the round-tripped text, NFKC
/// normalized, with each character mapped to its hiragana form.
pub open spec fn spec_convert_to_hiragana(s: Seq<char>) -> Seq<char> {
    nfkc_of(roundtrip_view(s)).map_values(|c: char| hira_char(c))
}

fn hira_char_exec(c: char) -> (r: char)
    ensures
        r == hira_char(c),
{
    let u = c as u32;
    let mapped: char = if 0x30A1 <= u && u <= 0x30F6 {
        match char::from_u32(u - 0x60) {
            Some(h) => {
                proof {
                    vstd::utf8::char_u32_cast(h, (u - 0x60) as u32);
                }
                h
            },
            None => c,
        }
    } else if c == 'ヷ' {
        'わ'
    } else if c == 'ヸ' {
        'ゐ'
    } else if c == 'ヹ' {
        'ゑ'
    } else if c == 'ヺ' {
        'を'
    } else {
        c
    };
    if mapped == 'ゐ' {
        'い'
    } else if mapped == 'ゑ' {
        'え'
    } else {
        mapped
    }
}

/// Converts a katakana reading to hiragana: a UTF-8 encode/decode round
/// trip, NFKC normalization, then the per-character kana mapping.
#[verifier::loop_isolation(false)]
pub fn convert_to_hiragana(text: &str) -> (r: String)
    ensures
        r@ == spec_convert_to_hiragana(text@),
{
    let bytes = utf8_encode(text);
    proof {
        vstd::utf8::encode_utf8_valid_utf8(text@);
    }
    let decoded = utf8_decode(&bytes);
    let normalized = nfkc(decoded.as_str());
    let chars = chars_of(normalized.as_str());
    let mut out: Vec<char> = Vec::new();
    let mut i: usize = 0;
    while i < chars.len()
        invariant
            i <= chars@.len(),
            out@ == chars@.take(i as int).map_values(|c: char| hira_char(c)),
        decreases chars@.len() - i,
    {
        out.push(hira_char_exec(chars[i]));
        i = i + 1;
        proof {
            assert(out@ =~= chars@.take(i as int).map_values(|c: char| hira_char(c)));
        }
    }
    proof {
        assert(chars@.take(chars@.len() as int) =~= chars@);
    }
    string_of(&out)
}

/// Whether a character is an ASCII hexadecimal digit.
pub open spec fn is_hex_digit(c: char) -> bool {
    let u = c as u32;
    (0x30 <= u && u <= 0x39) || (0x61 <= u && u <= 0x66) || (0x41 <= u && u <= 0x46)
}

/// The value of a hexadecimal digit character.
pub open spec fn hex_val(c: char) -> int {
    let u = c as u32;
    if 0x30 <= u && u <= 0x39 {
        u - 0x30
    } else if 0x61 <= u && u <= 0x66 {
        u - 0x57
    } else if 0x41 <= u && u <= 0x46 {
        u - 0x37
    } else {
        0
    }
}

/// Whether a Unicode escape — a backslash, `u`, and four hexadecimal
/// digits — begins at position `i`.
pub open spec fn escape_at(s: Seq<char>, i: int) -> bool {
    &&& i + 6 <= s.len()
    &&& s[i] == '\\'
    &&& s[i + 1] == 'u'
    &&& is_hex_digit(s[i + 2])
    &&& is_hex_digit(s[i + 3])
    &&& is_hex_digit(s[i + 4])
    &&& is_hex_digit(s[i + 5])
}

/// The scalar value an escape at position `i` denotes.
pub open spec fn escape_val(s: Seq<char>, i: int) -> int {
    4096 * hex_val(s[i + 2]) + 256 * hex_val(s[i + 3]) + 16 * hex_val(s[i + 4]) + hex_val(
        s[i + 5],
    )
}

/// Whether the escape at position `i` denotes a character (and not a
/// surrogate value, which no character carries).
pub open spec fn escape_ok(s: Seq<char>, i: int) -> bool {
    escape_val(s, i) < 0xD800 || escape_val(s, i) > 0xDFFF
}

/// The text with every Unicode escape from position `i` on replaced by its
/// character, scanning left to right without overlap.
pub open spec fn unescaped(s: Seq<char>, i: int) -> Seq<char>
    decreases s.len() - i,
{
    if i < 0 || i >= s.len() {
        Seq::<char>::empty()
    } else if escape_at(s, i) {
        seq![(escape_val(s, i) as u32) as char] + unescaped(s, i + 6)
    } else {
        seq![s[i]] + unescaped(s, i + 1)
    }
}

/// Whether every escape from position `i` on denotes a character.
pub open spec fn escapes_decodable(s: Seq<char>, i: int) -> bool
    decreases s.len() - i,
{
    if i < 0 || i >= s.len() {
        true
    } else if escape_at(s, i) {
        escape_ok(s, i) && escapes_decodable(s, i + 6)
    } else {
        escapes_decodable(s, i + 1)
    }
}

fn hex_digit_val(c: char) -> (r: Option<u32>)
    ensures
        r is Some ==> is_hex_digit(c) && r->0 as int == hex_val(c) && r->0 < 16,
        r is None ==> !is_hex_digit(c),
{
    let u = c as u32;
    if 0x30 <= u && u <= 0x39 {
        Some(u - 0x30)
    } else if 0x61 <= u && u <= 0x66 {
        Some(u - 0x57)
    } else if 0x41 <= u && u <= 0x46 {
        Some(u - 0x37)
    } else {
        None
    }
}

#[verifier::loop_isolation(false)]
fn unescape_chars(s: &Vec<char>) -> (r: Option<Vec<char>>)
    ensures
        r is Some ==> escapes_decodable(s@, 0) && r->0@ == unescaped(s@, 0),
        r is None ==> !escapes_decodable(s@, 0),
{
    let n: usize = s.len();
    let mut out: Vec<char> = Vec::new();
    let mut i: usize = 0;
    proof {
        assert(Seq::<char>::empty() + unescaped(s@, 0) =~= unescaped(s@, 0));
    }
    while i < n
        invariant
            i <= n,
            escapes_decodable(s@, 0) == escapes_decodable(s@, i as int),
            unescaped(s@, 0) == out@ + unescaped(s@, i as int),
        decreases n - i,
    {
        let mut stepped = false;
        if n - i >= 6 && s[i] == '\\' && s[i + 1] == 'u' {
            let d0 = hex_digit_val(s[i + 2]);
            let d1 = hex_digit_val(s[i + 3]);
            let d2 = hex_digit_val(s[i + 4]);
            let d3 = hex_digit_val(s[i + 5]);
            match (d0, d1, d2, d3) {
                (Some(a), Some(b), Some(c), Some(d)) => {
                    let v: u32 = a * 4096 + b * 256 + c * 16 + d;
                    proof {
                        assert(escape_at(s@, i as int));
                        assert(escape_val(s@, i as int) == v as int);
                    }
                    match char::from_u32(v) {
                        Some(ch) => {
                            proof {
                                vstd::utf8::char_u32_cast(ch, v);
                                assert((out@ + seq![ch]) + unescaped(s@, i + 6) =~= out@ + (
                                seq![ch] + unescaped(s@, i + 6)));
                            }
                            out.push(ch);
                            i = i + 6;
                            stepped = true;
                        },
                        None => {
                            proof {
                                assert(!escape_ok(s@, i as int));
                                assert(!escapes_decodable(s@, i as int));
                            }
                            return None;
                        },
                    }
                },
                _ => {},
            }
        }
        if !stepped {
            proof {
                assert(!escape_at(s@, i as int));
                assert((out@ + seq![s@[i as int]]) + unescaped(s@, i + 1) =~= out@ + (seq![
                    s@[i as int],
                ] + unescaped(s@, i + 1)));
            }
            out.push(s[i]);
            i = i + 1;
        }
    }
    Some(out)
}

/// Decodes every `\uXXXX` Unicode escape in the text to its character.
/// Callers rule out escapes that denote surrogate values, which no
/// character can carry; [`try_unicode_escape`] checks that for them.
pub fn unicode_escape_to_char(text: &str) -> (r: String)
    requires
        escapes_decodable(text@, 0),
    ensures
        r@ == unescaped(text@, 0),
{
    let chars = chars_of(text);
    match unescape_chars(&chars) {
        Some(v) => string_of(&v),
        None => {
            proof {
                assert(false);
            }
            String::new()
        },
    }
}

/// Decodes every Unicode escape in the text, or reports that some escape
/// denotes no character.
pub fn try_unicode_escape(text: &str) -> (r: Option<String>)
    ensures
        r is Some ==> escapes_decodable(text@, 0) && r->0@ == unescaped(text@, 0),
        r is None ==> !escapes_decodable(text@, 0),
{
    let chars = chars_of(text);
    match unescape_chars(&chars) {
        Some(v) => Some(string_of(&v)),
        None => None,
    }
}

} // verus!
