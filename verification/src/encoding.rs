//! Turning the bytes of a JSON file into text, whatever Unicode encoding an
//! editor saved it in.

use vstd::prelude::*;
use vstd::utf8::{char_is_scalar, decode_utf8, encode_scalar, encode_utf8, encode_utf8_decode_utf8,
    encode_utf8_valid_utf8, has_width_1_encoding, has_width_2_encoding, has_width_3_encoding,
    valid_utf8};

verus! {

pub open spec fn is_high_surrogate(u: u16) -> bool {
    0xD800 <= u && u <= 0xDBFF
}

pub open spec fn is_low_surrogate(u: u16) -> bool {
    0xDC00 <= u && u <= 0xDFFF
}

/// The text that the UTF-16 code units `units` encode; `None` where a
/// surrogate is unpaired.
pub open spec fn utf16_decode(units: Seq<u16>) -> Option<Seq<char>>
    decreases units.len(),
{
    if units.len() == 0 {
        Some(Seq::empty())
    } else if !is_high_surrogate(units[0]) && !is_low_surrogate(units[0]) {
        match utf16_decode(units.drop_first()) {
            Some(rest) => Some(seq![(units[0] as u32) as char] + rest),
            None => None,
        }
    } else if is_high_surrogate(units[0]) && units.len() >= 2 && is_low_surrogate(units[1]) {
        let c = (0x10000 + (units[0] - 0xD800) * 0x400 + (units[1] - 0xDC00)) as u32;
        match utf16_decode(units.skip(2)) {
            Some(rest) => Some(seq![c as char] + rest),
            None => None,
        }
    } else {
        None
    }
}

/// Trusted: `String::from_utf16`, which decodes UTF-16 and fails on an
/// unpaired surrogate, as its documentation says.
#[verifier::external_body]
fn string_from_utf16(units: &[u16]) -> (r: Option<String>)
    ensures
        r is Some <==> utf16_decode(units@) is Some,
        r matches Some(s) ==> utf16_decode(units@) == Some(s@),
{
    String::from_utf16(units).ok()
}

/// Trusted: `String::from_utf8`, which accepts exactly the valid UTF-8
/// byte sequences, as its documentation says.
#[verifier::external_body]
fn string_from_utf8(bytes: Vec<u8>) -> (r: Option<String>)
    ensures
        r is Some <==> valid_utf8(bytes@),
        r matches Some(s) ==> s@ == decode_utf8(bytes@),
{
    String::from_utf8(bytes).ok()
}

/// Why the bytes of a file are no text.
#[derive(Debug, Clone, Copy, PartialEq, Eq, Structural)]
pub enum DecodeError {
    /// A UTF-16 little-endian file with an odd number of bytes.
    Utf16LeOddLength,
    /// A UTF-16 big-endian file with an odd number of bytes.
    Utf16BeOddLength,
    /// UTF-16 with an unpaired surrogate.
    Utf16,
    /// Invalid UTF-8.
    Utf8,
}

/// `units` without one leading byte-order mark.
pub open spec fn drop_bom16(units: Seq<u16>) -> Seq<u16> {
    if units.len() > 0 && units[0] == 0xFEFF {
        units.drop_first()
    } else {
        units
    }
}

/// The text of UTF-16 code units, after a leading byte-order mark.
pub open spec fn utf16_text(units: Seq<u16>) -> Result<Seq<char>, DecodeError> {
    match utf16_decode(drop_bom16(units)) {
        Some(s) => Ok(s),
        None => Err(DecodeError::Utf16),
    }
}

/// Decodes UTF-16 code units, dropping one leading byte-order mark.
pub fn utf16_units_to_string(units: &[u16]) -> (r: Result<String, DecodeError>)
    ensures
        match r {
            Ok(s) => utf16_text(units@) == Ok::<Seq<char>, DecodeError>(s@),
            Err(e) => utf16_text(units@) == Err::<Seq<char>, DecodeError>(e),
        },
{
    let n = units.len();
    let start: usize = if n > 0 && units[0] == 0xFEFF {
        1
    } else {
        0
    };
    let mut body: Vec<u16> = Vec::new();
    let mut k = start;
    while k < n
        invariant
            n == units@.len(),
            start <= k <= n,
            body@ == units@.subrange(start as int, k as int),
        decreases n - k,
    {
        body.push(units[k]);
        k = k + 1;
    }
    assert(body@ == drop_bom16(units@));
    match string_from_utf16(body.as_slice()) {
        Some(s) => Ok(s),
        None => Err(DecodeError::Utf16),
    }
}

/// The bytes that count as blank before any text: space, LF, CR and tab.
pub open spec fn is_blank_byte(b: u8) -> bool {
    b == 0x20 || b == 0x0A || b == 0x0D || b == 0x09
}

/// Little-endian code units of an even number of bytes.
pub open spec fn le_units(p: Seq<u8>) -> Seq<u16> {
    Seq::new(p.len() / 2, |i: int| (p[2 * i] + p[2 * i + 1] * 256) as u16)
}

/// Big-endian code units of an even number of bytes.
pub open spec fn be_units(p: Seq<u8>) -> Seq<u16> {
    Seq::new(p.len() / 2, |i: int| (p[2 * i] * 256 + p[2 * i + 1]) as u16)
}

/// The text of a JSON file's bytes: `[]` for a blank file; UTF-16 after a
/// UTF-16 byte-order mark (little- or big-endian); else UTF-8, after a UTF-8
/// byte-order mark where there is one.
pub open spec fn json_text_spec(bytes: Seq<u8>) -> Result<Seq<char>, DecodeError> {
    if forall|i: int| 0 <= i < bytes.len() ==> is_blank_byte(#[trigger] bytes[i]) {
        Ok("[]"@)
    } else if bytes.len() >= 2 && bytes[0] == 0xFF && bytes[1] == 0xFE {
        let p = bytes.skip(2);
        if p.len() % 2 != 0 {
            Err(DecodeError::Utf16LeOddLength)
        } else {
            utf16_text(le_units(p))
        }
    } else if bytes.len() >= 2 && bytes[0] == 0xFE && bytes[1] == 0xFF {
        let p = bytes.skip(2);
        if p.len() % 2 != 0 {
            Err(DecodeError::Utf16BeOddLength)
        } else {
            utf16_text(be_units(p))
        }
    } else {
        let body = if bytes.len() >= 3 && bytes[0] == 0xEF && bytes[1] == 0xBB && bytes[2] == 0xBF {
            bytes.skip(3)
        } else {
            bytes
        };
        if valid_utf8(body) {
            Ok(decode_utf8(body))
        } else {
            Err(DecodeError::Utf8)
        }
    }
}

/// The code units of the bytes from position 2 on, little- or big-endian.
fn units_from(bytes: &[u8], little_endian: bool) -> (r: Vec<u16>)
    requires
        bytes@.len() >= 2,
        (bytes@.len() - 2) % 2 == 0,
    ensures
        r@ == if little_endian {
            le_units(bytes@.skip(2))
        } else {
            be_units(bytes@.skip(2))
        },
{
    let n = bytes.len();
    let ghost p = bytes@.skip(2);
    let mut r: Vec<u16> = Vec::new();
    let mut k: usize = 0;
    while k < (n - 2) / 2
        invariant
            n == bytes@.len(),
            n >= 2,
            (n - 2) % 2 == 0,
            p == bytes@.skip(2),
            k <= (n - 2) / 2,
            r@.len() == k,
            forall|j: int| 0 <= j < k ==> #[trigger] r@[j] == if little_endian {
                le_units(p)[j]
            } else {
                be_units(p)[j]
            },
        decreases (n - 2) / 2 - k,
    {
        let a = bytes[2 + 2 * k];
        let b = bytes[2 + 2 * k + 1];
        assert(p[2 * k as int] == a && p[2 * k + 1] == b);
        let u: u16 = if little_endian {
            (a as u16) + (b as u16) * 256
        } else {
            (a as u16) * 256 + (b as u16)
        };
        r.push(u);
        k = k + 1;
    }
    proof {
        let want = if little_endian {
            le_units(p)
        } else {
            be_units(p)
        };
        assert(r@ =~= want);
    }
    r
}

/// Decodes the bytes of a JSON file to text, whatever Unicode encoding it
/// was saved in; a blank file reads as `[]`.
pub fn decode_json_file_bytes(bytes: &[u8]) -> (r: Result<String, DecodeError>)
    ensures
        match r {
            Ok(s) => json_text_spec(bytes@) == Ok::<Seq<char>, DecodeError>(s@),
            Err(e) => json_text_spec(bytes@) == Err::<Seq<char>, DecodeError>(e),
        },
{
    let n = bytes.len();
    let mut blank = true;
    let mut k: usize = 0;
    while k < n
        invariant
            n == bytes@.len(),
            k <= n,
            blank == forall|i: int| 0 <= i < k ==> is_blank_byte(#[trigger] bytes@[i]),
        decreases n - k,
    {
        let b = bytes[k];
        if !(b == 0x20 || b == 0x0A || b == 0x0D || b == 0x09) {
            blank = false;
        }
        k = k + 1;
    }
    if blank {
        proof {
            reveal_strlit("[]");
        }
        return Ok(String::from_str("[]"));
    }
    if n >= 2 && bytes[0] == 0xFF && bytes[1] == 0xFE {
        if (n - 2) % 2 != 0 {
            return Err(DecodeError::Utf16LeOddLength);
        }
        let units = units_from(bytes, true);
        return utf16_units_to_string(units.as_slice());
    }
    if n >= 2 && bytes[0] == 0xFE && bytes[1] == 0xFF {
        if (n - 2) % 2 != 0 {
            return Err(DecodeError::Utf16BeOddLength);
        }
        let units = units_from(bytes, false);
        return utf16_units_to_string(units.as_slice());
    }
    let start: usize = if n >= 3 && bytes[0] == 0xEF && bytes[1] == 0xBB && bytes[2] == 0xBF {
        3
    } else {
        0
    };
    let mut body: Vec<u8> = Vec::new();
    let mut j = start;
    while j < n
        invariant
            n == bytes@.len(),
            start <= j <= n,
            body@ == bytes@.subrange(start as int, j as int),
        decreases n - j,
    {
        body.push(bytes[j]);
        j = j + 1;
    }
    assert(body@ == bytes@.skip(start as int));
    assert(start == 0 ==> bytes@.skip(0) == bytes@);
    match string_from_utf8(body) {
        Some(s) => Ok(s),
        None => Err(DecodeError::Utf8),
    }
}

/// The characters that count as blank before any text.
pub open spec fn is_blank_char(c: char) -> bool {
    c == ' ' || c == '\n' || c == '\r' || c == '\t'
}

proof fn lemma_first_byte(c: char)
    ensures
        encode_scalar(c as u32).len() >= 1,
        encode_scalar(c as u32)[0] != 0xFF && encode_scalar(c as u32)[0] != 0xFE,
        is_blank_byte(encode_scalar(c as u32)[0]) ==> is_blank_char(c),
        (encode_scalar(c as u32).len() >= 3 && encode_scalar(c as u32)[0] == 0xEF
            && encode_scalar(c as u32)[1] == 0xBB && encode_scalar(c as u32)[2] == 0xBF)
            <==> c == '\u{FEFF}',
        encode_scalar(c as u32).len() < 3 ==> encode_scalar(c as u32)[0] != 0xEF,
{
    char_is_scalar(c);
    let u = c as u32;
    if has_width_1_encoding(u) {
        assert(u <= 0x7F ==> (u & 0x7F) as u8 == u) by (bit_vector);
        assert(encode_scalar(u)[0] == u);
    } else if has_width_2_encoding(u) {
        assert(0x80 <= u <= 0x7FF ==> 0xC0 <= (0xC0u8 | ((u >> 6) & 0x1F) as u8) <= 0xDF) by (bit_vector);
    } else if has_width_3_encoding(u) {
        assert(0x800 <= u <= 0xFFFF ==> 0xE0 <= (0xE0u8 | ((u >> 12) & 0x0F) as u8) <= 0xEF) by (bit_vector);
        assert(0x800 <= u <= 0xFFFF ==> ((0xE0u8 | ((u >> 12) & 0x0F) as u8) == 0xEF && (0x80u8 | ((u
            >> 6) & 0x3F) as u8) == 0xBB && (0x80u8 | (u & 0x3F) as u8) == 0xBF <==> u == 0xFEFF)) by (bit_vector);
    } else {
        assert(0x10000 <= u <= 0x10FFFF ==> 0xF0 <= (0xF0u8 | ((u >> 18) & 0x7) as u8) <= 0xF7) by (bit_vector);
        assert(u != 0xFEFF);
    }
}

/// Where all bytes of an encoding are blank, so are all its characters.
proof fn lemma_blank_bytes(s: Seq<char>)
    requires
        forall|i: int| 0 <= i < encode_utf8(s).len() ==> is_blank_byte(#[trigger] encode_utf8(s)[i]),
    ensures
        forall|i: int| 0 <= i < s.len() ==> is_blank_char(#[trigger] s[i]),
    decreases s.len(),
{
    if s.len() > 0 {
        let head = encode_scalar(s[0] as u32);
        let rest = encode_utf8(s.drop_first());
        lemma_first_byte(s[0]);
        assert(encode_utf8(s) == head + rest);
        assert(encode_utf8(s)[0] == head[0]);
        assert forall|i: int| 0 <= i < rest.len() implies is_blank_byte(#[trigger] rest[i]) by {
            assert(encode_utf8(s)[head.len() + i] == rest[i]);
        }
        lemma_blank_bytes(s.drop_first());
        assert forall|i: int| 0 <= i < s.len() implies is_blank_char(#[trigger] s[i]) by {
            if i > 0 {
                assert(s[i] == s.drop_first()[i - 1]);
            }
        }
    }
}

/// A JSON file written as UTF-8 reads back as the text that was written,
/// unless that text is blank (it reads as `[]`) or starts with a byte-order
/// mark character (which is dropped).
pub proof fn law_utf8_text_round_trip(s: Seq<char>)
    requires
        exists|i: int| 0 <= i < s.len() && !is_blank_char(#[trigger] s[i]),
        s[0] != '\u{FEFF}',
    ensures
        json_text_spec(encode_utf8(s)) == Ok::<Seq<char>, DecodeError>(s),
{
    let b = encode_utf8(s);
    let i = choose|i: int| 0 <= i < s.len() && !is_blank_char(#[trigger] s[i]);
    if forall|k: int| 0 <= k < b.len() ==> is_blank_byte(#[trigger] b[k]) {
        lemma_blank_bytes(s);
        assert(is_blank_char(s[i]));
    }
    let head = encode_scalar(s[0] as u32);
    lemma_first_byte(s[0]);
    assert(b == head + encode_utf8(s.drop_first()));
    assert(b[0] == head[0]);
    if head.len() >= 3 {
        assert(b[1] == head[1] && b[2] == head[2]);
    }
    encode_utf8_valid_utf8(s);
    encode_utf8_decode_utf8(s);
}

} // verus!
