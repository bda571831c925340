//! Encodings of text inside PDF strings: detection of UTF-16 (with or
//! without a byte-order mark), lossy UTF-16 decoding, UTF-8 / Windows-1252
//! single-byte decoding, and UTF-16 encoding with a byte-order mark.

use vstd::prelude::*;

use crate::text::char_from_scalar;

verus! {

/// How the bytes of a PDF string were encoded.
#[derive(Debug, Clone, Copy, PartialEq, Eq, Structural)]
pub enum EncodingHint {
    Utf16Be,
    Utf16Le,
    SingleByte,
}

/// Number of zero bytes at even (`odd == false`) or odd positions.
pub open spec fn zeros_at(b: Seq<u8>, odd: bool) -> int
    decreases b.len(),
{
    if b.len() == 0 {
        0
    } else {
        zeros_at(b.drop_last(), odd) + if b.last() == 0 && (((b.len() - 1) % 2 == 1) == odd) {
            1int
        } else {
            0int
        }
    }
}

/// Whether the bytes look like BOM-less UTF-16: an even length of at least
/// four, with more than 40% of the high bytes zero and fewer than 20% of the
/// low bytes zero (high bytes come first in big-endian order).
pub open spec fn looks_like_utf16_spec(b: Seq<u8>, big_endian: bool) -> bool {
    if b.len() < 4 || b.len() % 2 != 0 {
        false
    } else {
        let pairs = b.len() / 2;
        let ze = zeros_at(b, false);
        let zo = zeros_at(b, true);
        if big_endian {
            5 * ze > 2 * pairs && 5 * zo < pairs
        } else {
            5 * zo > 2 * pairs && 5 * ze < pairs
        }
    }
}

/// The encoding a PDF string is taken to use: a byte-order mark decides,
/// then the zero-byte pattern of UTF-16, else single-byte.
pub open spec fn detected_hint(b: Seq<u8>) -> EncodingHint {
    if b.len() >= 2 && b[0] == 0xFE && b[1] == 0xFF {
        EncodingHint::Utf16Be
    } else if b.len() >= 2 && b[0] == 0xFF && b[1] == 0xFE {
        EncodingHint::Utf16Le
    } else if looks_like_utf16_spec(b, true) {
        EncodingHint::Utf16Be
    } else if looks_like_utf16_spec(b, false) {
        EncodingHint::Utf16Le
    } else {
        EncodingHint::SingleByte
    }
}

/// Whether BOM-less bytes look like UTF-16 in the given byte order.
pub fn looks_like_utf16(bytes: &[u8], big_endian: bool) -> (r: bool)
    ensures
        r == looks_like_utf16_spec(bytes@, big_endian),
{
    if bytes.len() < 4 || bytes.len() % 2 != 0 {
        return false;
    }
    let mut ze: usize = 0;
    let mut zo: usize = 0;
    let mut i: usize = 0;
    while i < bytes.len()
        invariant
            i <= bytes.len(),
            ze == zeros_at(bytes@.take(i as int), false),
            zo == zeros_at(bytes@.take(i as int), true),
            ze + zo <= i,
        decreases bytes.len() - i,
    {
        assert(bytes@.take(i as int + 1).drop_last() =~= bytes@.take(i as int));
        if bytes[i] == 0 {
            if i % 2 == 0 {
                ze = ze + 1;
            } else {
                zo = zo + 1;
            }
        }
        i = i + 1;
    }
    assert(bytes@.take(bytes.len() as int) =~= bytes@);
    let pairs = bytes.len() / 2;
    if big_endian {
        (ze as u128) * 5 > (pairs as u128) * 2 && (zo as u128) * 5 < pairs as u128
    } else {
        (zo as u128) * 5 > (pairs as u128) * 2 && (ze as u128) * 5 < pairs as u128
    }
}

/// The encoding a PDF string is taken to use (see `detected_hint`).
pub fn detect_encoding_hint(bytes: &[u8]) -> (h: EncodingHint)
    ensures
        h == detected_hint(bytes@),
{
    if bytes.len() >= 2 {
        if bytes[0] == 0xFE && bytes[1] == 0xFF {
            return EncodingHint::Utf16Be;
        }
        if bytes[0] == 0xFF && bytes[1] == 0xFE {
            return EncodingHint::Utf16Le;
        }
    }
    if looks_like_utf16(bytes, true) {
        return EncodingHint::Utf16Be;
    }
    if looks_like_utf16(bytes, false) {
        return EncodingHint::Utf16Le;
    }
    EncodingHint::SingleByte
}

/// A UTF-16 high (leading) surrogate.
pub open spec fn is_high_surrogate(u: u16) -> bool {
    0xD800 <= u && u <= 0xDBFF
}

/// A UTF-16 low (trailing) surrogate.
pub open spec fn is_low_surrogate(u: u16) -> bool {
    0xDC00 <= u && u <= 0xDFFF
}

/// The character a surrogate pair stands for.
pub open spec fn pair_scalar(hi: u16, lo: u16) -> u32 {
    (0x10000 + (hi - 0xD800) * 1024 + (lo - 0xDC00)) as u32
}

/// Lossy UTF-16 decoding (`String::from_utf16_lossy`): surrogate pairs are
/// combined and every unpaired surrogate becomes U+FFFD.
pub open spec fn utf16_lossy(u: Seq<u16>) -> Seq<char>
    decreases u.len(),
{
    if u.len() == 0 {
        seq![]
    } else if u.len() >= 2 && is_high_surrogate(u[0]) && is_low_surrogate(u[1]) {
        seq![pair_scalar(u[0], u[1]) as char] + utf16_lossy(u.skip(2))
    } else if is_high_surrogate(u[0]) || is_low_surrogate(u[0]) {
        seq!['\u{FFFD}'] + utf16_lossy(u.drop_first())
    } else {
        seq![(u[0] as u32) as char] + utf16_lossy(u.drop_first())
    }
}

/// The 16-bit units of `b` in the given byte order (a trailing odd byte is
/// dropped).
pub open spec fn units_of(b: Seq<u8>, big_endian: bool) -> Seq<u16> {
    Seq::new(
        (b.len() / 2) as nat,
        |i: int|
            if big_endian {
                (b[2 * i] * 256 + b[2 * i + 1]) as u16
            } else {
                (b[2 * i + 1] * 256 + b[2 * i]) as u16
            },
    )
}

/// `b` without its leading byte-order mark for the given byte order, if any.
pub open spec fn without_bom(b: Seq<u8>, big_endian: bool) -> Seq<u8> {
    if b.len() >= 2 && ((big_endian && b[0] == 0xFE && b[1] == 0xFF) || (!big_endian && b[0]
        == 0xFF && b[1] == 0xFE)) {
        b.skip(2)
    } else {
        b
    }
}

/// UTF-16 bytes decoded as text (byte-order mark dropped, lossy).
pub open spec fn utf16_decoded(b: Seq<u8>, big_endian: bool) -> Seq<char> {
    utf16_lossy(units_of(without_bom(b, big_endian), big_endian))
}

fn units_from(bytes: &[u8], big_endian: bool) -> (u: Vec<u16>)
    ensures
        u@ == units_of(without_bom(bytes@, big_endian), big_endian),
{
    let start: usize = if bytes.len() >= 2 && ((big_endian && bytes[0] == 0xFE && bytes[1] == 0xFF)
        || (!big_endian && bytes[0] == 0xFF && bytes[1] == 0xFE)) {
        2
    } else {
        0
    };
    let ghost b = without_bom(bytes@, big_endian);
    assert(b =~= bytes@.skip(start as int));
    let n = (bytes.len() - start) / 2;
    let mut u: Vec<u16> = Vec::new();
    let mut i: usize = 0;
    while i < n
        invariant
            i <= n,
            n == (bytes.len() - start) / 2,
            b == bytes@.skip(start as int),
            start <= bytes.len(),
            u@ == units_of(b, big_endian).take(i as int),
        decreases n - i,
    {
        let x = bytes[start + 2 * i] as u16;
        let y = bytes[start + 2 * i + 1] as u16;
        let v: u16 = if big_endian {
            x * 256 + y
        } else {
            y * 256 + x
        };
        u.push(v);
        assert(b[2 * i as int] == bytes@[start + 2 * i]);
        assert(b[2 * i + 1] == bytes@[start + 2 * i + 1]);
        i = i + 1;
        assert(u@ =~= units_of(b, big_endian).take(i as int));
    }
    assert(units_of(b, big_endian).take(n as int) =~= units_of(b, big_endian));
    u
}

pub fn decode_units_lossy(u: &Vec<u16>) -> (r: Vec<char>)
    ensures
        r@ == utf16_lossy(u@),
{
    let mut r: Vec<char> = Vec::new();
    let mut i: usize = 0;
    assert(u@.skip(0) =~= u@);
    while i < u.len()
        invariant
            i <= u.len(),
            r@ + utf16_lossy(u@.skip(i as int)) == utf16_lossy(u@),
        decreases u.len() - i,
    {
        let ghost s = u@.skip(i as int);
        let x = u[i];
        assert(s[0] == x);
        let ghost before = r@;
        if i + 1 < u.len() && 0xD800 <= x && x <= 0xDBFF && 0xDC00 <= u[i + 1] && u[i + 1]
            <= 0xDFFF {
            let y = u[i + 1];
            assert(s[1] == y);
            let code: u32 = 0x10000 + ((x - 0xD800) as u32) * 1024 + ((y - 0xDC00) as u32);
            assert(code == pair_scalar(x, y));
            r.push(char_from_scalar(code));
            assert(s.skip(2) =~= u@.skip(i + 2));
            assert(r@ =~= before + seq![pair_scalar(x, y) as char]);
            i = i + 2;
        } else if 0xD800 <= x && x <= 0xDFFF {
            r.push('\u{FFFD}');
            assert(s.drop_first() =~= u@.skip(i + 1));
            assert(r@ =~= before + seq!['\u{FFFD}']);
            i = i + 1;
        } else {
            r.push(char_from_scalar(x as u32));
            assert(s.drop_first() =~= u@.skip(i + 1));
            assert(r@ =~= before + seq![(x as u32) as char]);
            i = i + 1;
        }
        assert(r@ + utf16_lossy(u@.skip(i as int)) =~= before + utf16_lossy(s));
    }
    assert(u@.skip(i as int) =~= Seq::<u16>::empty());
    assert(r@ + Seq::<char>::empty() =~= r@);
    r
}

/// Decodes big-endian UTF-16 bytes (byte-order mark optional, lossy).
pub fn decode_utf16be(bytes: &[u8]) -> (s: String)
    ensures
        s@ == utf16_decoded(bytes@, true),
{
    let u = units_from(bytes, true);
    let c = decode_units_lossy(&u);
    crate::text::string_from_chars(c.as_slice())
}

/// Decodes little-endian UTF-16 bytes (byte-order mark optional, lossy).
pub fn decode_utf16le(bytes: &[u8]) -> (s: String)
    ensures
        s@ == utf16_decoded(bytes@, false),
{
    let u = units_from(bytes, false);
    let c = decode_units_lossy(&u);
    crate::text::string_from_chars(c.as_slice())
}

/// UTF-8 validation and decoding of std (`std::str::from_utf8`).
#[verifier::external_body]
fn utf8_text(bytes: &[u8]) -> (r: Option<String>)
    ensures
        r is Some <==> vstd::utf8::valid_utf8(bytes@),
        r matches Some(s) ==> s@ == vstd::utf8::decode_utf8(bytes@),
{
    match std::str::from_utf8(bytes) {
        Ok(s) => Some(s.to_owned()),
        Err(_) => None,
    }
}

/// The character Windows-1252 gives a byte: the byte's own code point,
/// except in `0x80..=0x9F`, which hold typographic characters (five bytes
/// there stand for the control character of the same number).
pub open spec fn cp1252_char(b: u8) -> char {
    if b < 0x80 || b >= 0xA0 {
        b as char
    } else {
        let t: Seq<u32> = seq![
            0x20AC, 0x0081, 0x201A, 0x0192, 0x201E, 0x2026, 0x2020, 0x2021,
            0x02C6, 0x2030, 0x0160, 0x2039, 0x0152, 0x008D, 0x017D, 0x008F,
            0x0090, 0x2018, 0x2019, 0x201C, 0x201D, 0x2022, 0x2013, 0x2014,
            0x02DC, 0x2122, 0x0161, 0x203A, 0x0153, 0x009D, 0x017E, 0x0178,
        ];
        t[b - 0x80] as char
    }
}

/// Whether bytes start with a UTF-8, UTF-16LE or UTF-16BE byte-order mark.
pub open spec fn has_bom(b: Seq<u8>) -> bool {
    (b.len() >= 3 && b[0] == 0xEF && b[1] == 0xBB && b[2] == 0xBF) || (b.len() >= 2 && b[0]
        == 0xFF && b[1] == 0xFE) || (b.len() >= 2 && b[0] == 0xFE && b[1] == 0xFF)
}

/// What `encoding_rs::WINDOWS_1252.decode` gives for some bytes.
pub uninterp spec fn windows_1252_decoded(b: Seq<u8>) -> Seq<char>;

/// Decodes bytes with `encoding_rs::WINDOWS_1252.decode`. Without a
/// byte-order mark every byte becomes its Windows-1252 character; bytes that
/// start with one are decoded in the encoding it names, with malformed input
/// replaced, which is left as `windows_1252_decoded(bytes)`.
#[verifier::external_body]
fn windows_1252_text(bytes: &[u8]) -> (s: String)
    ensures
        s@ == windows_1252_decoded(bytes@),
        !has_bom(bytes@) ==> s@ == bytes@.map_values(|b: u8| cp1252_char(b)),
{
    let (text, _, _) = encoding_rs::WINDOWS_1252.decode(bytes);
    text.into_owned()
}

/// Single-byte PDF text: UTF-8 when the bytes are valid UTF-8, else
/// Windows-1252 (see `windows_1252_text` for bytes that start with a
/// byte-order mark).
pub open spec fn single_byte_decoded(b: Seq<u8>) -> Seq<char> {
    if vstd::utf8::valid_utf8(b) {
        vstd::utf8::decode_utf8(b)
    } else if !has_bom(b) {
        b.map_values(|x: u8| cp1252_char(x))
    } else {
        windows_1252_decoded(b)
    }
}

/// Decodes single-byte PDF text (see `single_byte_decoded`).
pub fn decode_single_byte(bytes: &[u8]) -> (s: String)
    ensures
        s@ == single_byte_decoded(bytes@),
{
    if let Some(s) = utf8_text(bytes) {
        return s;
    }
    windows_1252_text(bytes)
}

/// The text of a PDF string together with the encoding it was read in.
pub open spec fn pdf_string_decoded(b: Seq<u8>) -> (Seq<char>, EncodingHint) {
    let h = detected_hint(b);
    let t = match h {
        EncodingHint::Utf16Be => utf16_decoded(b, true),
        EncodingHint::Utf16Le => utf16_decoded(b, false),
        EncodingHint::SingleByte => single_byte_decoded(b),
    };
    (t, h)
}

/// Decodes the bytes of a PDF string, detecting their encoding.
pub fn decode_pdf_string(bytes: &[u8]) -> (r: (String, EncodingHint))
    ensures
        (r.0@, r.1) == pdf_string_decoded(bytes@),
{
    let hint = detect_encoding_hint(bytes);
    let text = match hint {
        EncodingHint::Utf16Be => decode_utf16be(bytes),
        EncodingHint::Utf16Le => decode_utf16le(bytes),
        EncodingHint::SingleByte => decode_single_byte(bytes),
    };
    (text, hint)
}


/// The UTF-16 code units of one character.
pub open spec fn char_units(c: char) -> Seq<u16> {
    let v = c as u32;
    if v < 0x10000 {
        seq![v as u16]
    } else {
        seq![(0xD800 + (v - 0x10000) / 1024) as u16, (0xDC00 + (v - 0x10000) % 1024) as u16]
    }
}

/// The UTF-16 code units of a text (`str::encode_utf16`).
pub open spec fn utf16_units(s: Seq<char>) -> Seq<u16>
    decreases s.len(),
{
    if s.len() == 0 {
        seq![]
    } else {
        char_units(s[0]) + utf16_units(s.drop_first())
    }
}

proof fn lemma_utf16_units_push(s: Seq<char>, c: char)
    ensures
        utf16_units(s.push(c)) == utf16_units(s) + char_units(c),
    decreases s.len(),
{
    if s.len() == 0 {
        assert(s.push(c).drop_first() =~= Seq::<char>::empty());
        assert(utf16_units(s.push(c)) =~= char_units(c) + utf16_units(Seq::<char>::empty()));
        assert(utf16_units(s) + char_units(c) =~= char_units(c));
        assert(char_units(c) + Seq::<u16>::empty() =~= char_units(c));
    } else {
        assert(s.push(c).drop_first() =~= s.drop_first().push(c));
        assert(s.push(c)[0] == s[0]);
        lemma_utf16_units_push(s.drop_first(), c);
        assert(char_units(s[0]) + (utf16_units(s.drop_first()) + char_units(c)) =~= (char_units(
            s[0],
        ) + utf16_units(s.drop_first())) + char_units(c));
    }
}

/// Bytes of 16-bit units, high byte first.
pub open spec fn be_bytes(u: Seq<u16>) -> Seq<u8> {
    Seq::new(
        2 * u.len(),
        |i: int|
            if i % 2 == 0 {
                (u[i / 2] / 256) as u8
            } else {
                (u[i / 2] % 256) as u8
            },
    )
}

/// Bytes of 16-bit units, low byte first.
pub open spec fn le_bytes(u: Seq<u16>) -> Seq<u8> {
    Seq::new(
        2 * u.len(),
        |i: int|
            if i % 2 == 0 {
                (u[i / 2] % 256) as u8
            } else {
                (u[i / 2] / 256) as u8
            },
    )
}

fn units_of_text(text: &str) -> (u: Vec<u16>)
    ensures
        u@ == utf16_units(text@),
{
    let t = crate::text::chars_of(text);
    let mut u: Vec<u16> = Vec::new();
    let mut i: usize = 0;
    while i < t.len()
        invariant
            i <= t.len(),
            u@ == utf16_units(t@.take(i as int)),
        decreases t.len() - i,
    {
        let c = t[i];
        let v = c as u32;
        let ghost before = u@;
        if v < 0x10000 {
            u.push(v as u16);
        } else {
            proof {
                vstd::utf8::char_is_scalar(c);
            }
            u.push((0xD800 + (v - 0x10000) / 1024) as u16);
            u.push((0xDC00 + (v - 0x10000) % 1024) as u16);
        }
        assert(u@ =~= before + char_units(c));
        proof {
            lemma_utf16_units_push(t@.take(i as int), c);
            assert(t@.take(i as int).push(c) =~= t@.take(i as int + 1));
        }
        i = i + 1;
    }
    assert(t@.take(t.len() as int) =~= t@);
    u
}

fn push_units_bytes(out: &mut Vec<u8>, u: &Vec<u16>, big_endian: bool)
    ensures
        final(out)@ == old(out)@ + (if big_endian {
            be_bytes(u@)
        } else {
            le_bytes(u@)
        }),
{
    let ghost start = out@;
    let ghost target = if big_endian {
        be_bytes(u@)
    } else {
        le_bytes(u@)
    };
    let mut i: usize = 0;
    while i < u.len()
        invariant
            i <= u.len(),
            target == (if big_endian {
                be_bytes(u@)
            } else {
                le_bytes(u@)
            }),
            out@ == start + target.take(2 * i),
        decreases u.len() - i,
    {
        let hi = (u[i] / 256) as u8;
        let lo = (u[i] % 256) as u8;
        if big_endian {
            out.push(hi);
            out.push(lo);
        } else {
            out.push(lo);
            out.push(hi);
        }
        assert((2 * i) / 2 == i);
        assert((2 * i + 1) / 2 == i);
        assert(target[2 * i as int] == (if big_endian {
            hi
        } else {
            lo
        }));
        assert(target[2 * i + 1] == (if big_endian {
            lo
        } else {
            hi
        }));
        assert(out@ =~= start + target.take(2 * i + 2));
        i = i + 1;
    }
    assert(target.take(2 * u.len()) =~= target);
}

/// Big-endian UTF-16 with a byte-order mark.
pub open spec fn utf16be_encoded(s: Seq<char>) -> Seq<u8> {
    seq![0xFEu8, 0xFFu8] + be_bytes(utf16_units(s))
}

/// Little-endian UTF-16 with a byte-order mark.
pub open spec fn utf16le_encoded(s: Seq<char>) -> Seq<u8> {
    seq![0xFFu8, 0xFEu8] + le_bytes(utf16_units(s))
}

/// Encodes text as big-endian UTF-16 with a byte-order mark.
pub fn encode_utf16be_bytes(text: &str) -> (b: Vec<u8>)
    ensures
        b@ == utf16be_encoded(text@),
{
    let u = units_of_text(text);
    let mut out: Vec<u8> = Vec::new();
    out.push(0xFE);
    out.push(0xFF);
    push_units_bytes(&mut out, &u, true);
    assert(out@ =~= utf16be_encoded(text@));
    out
}

/// Encodes text as little-endian UTF-16 with a byte-order mark.
pub fn encode_utf16le(text: &str) -> (b: Vec<u8>)
    ensures
        b@ == utf16le_encoded(text@),
{
    let u = units_of_text(text);
    let mut out: Vec<u8> = Vec::new();
    out.push(0xFF);
    out.push(0xFE);
    push_units_bytes(&mut out, &u, false);
    assert(out@ =~= utf16le_encoded(text@));
    out
}

/// Whether every character is ASCII.
pub open spec fn all_ascii(s: Seq<char>) -> bool {
    forall|i: int| 0 <= i < s.len() ==> s[i] <= '\u{7f}'
}

/// The bytes a replacement text is written as, given the encoding of the
/// string it replaces: ASCII text in a single-byte string stays as is,
/// otherwise UTF-16 with a byte-order mark (little-endian only when the
/// original was little-endian).
pub open spec fn encoded_with_hint(s: Seq<char>, h: EncodingHint) -> Seq<u8> {
    if all_ascii(s) && h == EncodingHint::SingleByte {
        vstd::utf8::encode_utf8(s)
    } else if h == EncodingHint::Utf16Le {
        utf16le_encoded(s)
    } else {
        utf16be_encoded(s)
    }
}

/// Encodes replacement text for a PDF string (see `encoded_with_hint`).
pub fn encode_with_hint(text: &str, hint: EncodingHint) -> (b: Vec<u8>)
    ensures
        b@ == encoded_with_hint(text@, hint),
{
    let t = crate::text::chars_of(text);
    let mut ascii_only = true;
    let mut i: usize = 0;
    while i < t.len()
        invariant
            i <= t.len(),
            t@ == text@,
            ascii_only == (forall|k: int| 0 <= k < i ==> t@[k] <= '\u{7f}'),
        decreases t.len() - i,
    {
        if t[i] > '\u{7f}' {
            ascii_only = false;
        }
        i = i + 1;
    }
    if ascii_only && hint == EncodingHint::SingleByte {
        return vstd::slice::slice_to_vec(text.as_bytes());
    }
    match hint {
        EncodingHint::Utf16Le => encode_utf16le(text),
        _ => encode_utf16be_bytes(text),
    }
}

/// An upper-case hexadecimal digit.
pub open spec fn hex_digit(d: int) -> char {
    if d < 10 {
        ((d + 48) as u32) as char
    } else {
        ((d + 55) as u32) as char
    }
}

/// A 16-bit unit as four upper-case hexadecimal digits.
pub open spec fn hex4(u: u16) -> Seq<char> {
    seq![
        hex_digit((u / 4096) as int),
        hex_digit(((u / 256) % 16) as int),
        hex_digit(((u / 16) % 16) as int),
        hex_digit((u % 16) as int),
    ]
}

/// Every unit written as four hexadecimal digits.
pub open spec fn hex_units(u: Seq<u16>) -> Seq<char>
    decreases u.len(),
{
    if u.len() == 0 {
        seq![]
    } else {
        hex_units(u.drop_last()) + hex4(u.last())
    }
}

pub fn hex_digit_of(d: u16) -> (c: char)
    requires
        d < 16,
    ensures
        c == hex_digit(d as int),
{
    if d < 10 {
        char_from_scalar((d + 48) as u32)
    } else {
        char_from_scalar((d + 55) as u32)
    }
}

pub fn push_hex4(out: &mut Vec<char>, u: u16)
    ensures
        final(out)@ == old(out)@ + hex4(u),
{
    out.push(hex_digit_of(u / 4096));
    out.push(hex_digit_of((u / 256) % 16));
    out.push(hex_digit_of((u / 16) % 16));
    out.push(hex_digit_of(u % 16));
    assert(final(out)@ =~= old(out)@ + hex4(u));
}

/// The UTF-16 units of a text as upper-case hexadecimal, four digits per unit.
pub fn encode_utf16be_hex_str(s: &str) -> (r: String)
    ensures
        r@ == hex_units(utf16_units(s@)),
{
    let u = units_of_text(s);
    let mut out: Vec<char> = Vec::new();
    let mut i: usize = 0;
    while i < u.len()
        invariant
            i <= u.len(),
            out@ == hex_units(u@.take(i as int)),
        decreases u.len() - i,
    {
        push_hex4(&mut out, u[i]);
        assert(u@.take(i as int + 1).drop_last() =~= u@.take(i as int));
        i = i + 1;
    }
    assert(u@.take(u.len() as int) =~= u@);
    crate::text::string_from_chars(out.as_slice())
}


/// Decoding the UTF-16 units of a text gives the text back.
pub proof fn utf16_units_round_trip(s: Seq<char>)
    ensures
        utf16_lossy(utf16_units(s)) == s,
    decreases s.len(),
{
    if s.len() > 0 {
        let c = s[0];
        let v = c as u32;
        vstd::utf8::char_is_scalar(c);
        vstd::utf8::char_u32_cast(c, v);
        utf16_units_round_trip(s.drop_first());
        let u = utf16_units(s);
        let rest = utf16_units(s.drop_first());
        assert(u == char_units(c) + rest);
        if v < 0x10000 {
            assert(u[0] == v as u16);
            assert(u.drop_first() =~= rest);
            assert(!is_high_surrogate(u[0]) && !is_low_surrogate(u[0]));
            assert((u[0] as u32) == v);
            assert(utf16_lossy(u) == seq![c] + s.drop_first());
        } else {
            let hi = (0xD800 + (v - 0x10000) / 1024) as u16;
            let lo = (0xDC00 + (v - 0x10000) % 1024) as u16;
            assert(u[0] == hi);
            assert(u[1] == lo);
            assert(is_high_surrogate(hi));
            assert(is_low_surrogate(lo));
            assert(u.skip(2) =~= rest);
            assert(pair_scalar(hi, lo) == v);
            assert(utf16_lossy(u) == seq![c] + s.drop_first());
        }
        assert(seq![c] + s.drop_first() =~= s);
    }
}

proof fn lemma_units_of_bytes(u: Seq<u16>)
    ensures
        units_of(be_bytes(u), true) == u,
        units_of(le_bytes(u), false) == u,
{
    let b = be_bytes(u);
    let l = le_bytes(u);
    assert forall|i: int| 0 <= i < u.len() implies #[trigger] units_of(b, true)[i] == u[i] by {
        assert((2 * i) / 2 == i);
        assert((2 * i + 1) / 2 == i);
        assert((2 * i) % 2 == 0);
        assert((2 * i + 1) % 2 == 1);
        assert(b[2 * i] == (u[i] / 256) as u8);
        assert(b[2 * i + 1] == (u[i] % 256) as u8);
    }
    assert forall|i: int| 0 <= i < u.len() implies #[trigger] units_of(l, false)[i] == u[i] by {
        assert((2 * i) / 2 == i);
        assert((2 * i + 1) / 2 == i);
        assert((2 * i) % 2 == 0);
        assert((2 * i + 1) % 2 == 1);
        assert(l[2 * i] == (u[i] % 256) as u8);
        assert(l[2 * i + 1] == (u[i] / 256) as u8);
    }
    assert(units_of(b, true) =~= u);
    assert(units_of(l, false) =~= u);
}

/// A translation written as UTF-16 (with its byte-order mark) reads back as
/// the same text, recognised as the same encoding.
pub proof fn utf16_write_read_round_trip(s: Seq<char>)
    ensures
        pdf_string_decoded(utf16be_encoded(s)) == (s, EncodingHint::Utf16Be),
        pdf_string_decoded(utf16le_encoded(s)) == (s, EncodingHint::Utf16Le),
{
    lemma_units_of_bytes(utf16_units(s));
    utf16_units_round_trip(s);
    let be = utf16be_encoded(s);
    let le = utf16le_encoded(s);
    assert(be.skip(2) =~= be_bytes(utf16_units(s)));
    assert(le.skip(2) =~= le_bytes(utf16_units(s)));
    assert(be[0] == 0xFE && be[1] == 0xFF);
    assert(le[0] == 0xFF && le[1] == 0xFE);
}

proof fn lemma_char_nonneg(c: char)
    ensures
        '\0' <= c,
{
}

proof fn lemma_no_zeros(b: Seq<u8>, odd: bool)
    requires
        forall|i: int| 0 <= i < b.len() ==> #[trigger] b[i] != 0,
    ensures
        zeros_at(b, odd) == 0,
    decreases b.len(),
{
    if b.len() > 0 {
        assert(b.last() == b[b.len() - 1]);
        assert forall|i: int| 0 <= i < b.drop_last().len() implies #[trigger] b.drop_last()[i] != 0 by {
            assert(b.drop_last()[i] == b[i]);
        }
        lemma_no_zeros(b.drop_last(), odd);
    }
}

/// The encoding replacement text is written in for a string of encoding
/// `h`: single-byte only for ASCII text, else UTF-16 in the byte order of
/// `h` (big-endian for single-byte strings).
pub open spec fn written_hint(s: Seq<char>, h: EncodingHint) -> EncodingHint {
    if all_ascii(s) && h == EncodingHint::SingleByte {
        EncodingHint::SingleByte
    } else if h == EncodingHint::Utf16Le {
        EncodingHint::Utf16Le
    } else {
        EncodingHint::Utf16Be
    }
}

/// A rewritten string reads back as the text written into it, in the
/// encoding it was written in: `decode_pdf_string` of what
/// `encode_with_hint` gives is the same text with the hint `written_hint`
/// (for text without NUL characters, which would make ASCII look like
/// UTF-16).
pub proof fn encoded_text_reads_back(s: Seq<char>, h: EncodingHint)
    requires
        forall|i: int| 0 <= i < s.len() ==> #[trigger] s[i] != '\0',
    ensures
        pdf_string_decoded(encoded_with_hint(s, h)).0 == s,
        pdf_string_decoded(encoded_with_hint(s, h)) == (s, written_hint(s, h)),
{
    utf16_write_read_round_trip(s);
    if all_ascii(s) && h == EncodingHint::SingleByte {
        let b = vstd::utf8::encode_utf8(s);
        assert(vstd::utf8::is_ascii_chars(s)) by {
            assert forall|i: int| 0 <= i < s.len() implies '\0' <= #[trigger] s[i] <= '\u{7f}' by {
                lemma_char_nonneg(s[i]);
            }
        }
        vstd::utf8::is_ascii_chars_encode_utf8(s);
        vstd::utf8::is_ascii_chars_nat_bound(s);
        assert forall|i: int| 0 <= i < b.len() implies #[trigger] b[i] != 0 by {
            let c = s[i];
            assert(c as u8 == b[i]);
            assert((c as nat) < 128);
            assert(c != '\0');
            assert((c as nat) != 0);
        }
        lemma_no_zeros(b, true);
        lemma_no_zeros(b, false);
        if b.len() >= 2 {
            assert(s[0] as u8 == b[0]);
            assert(s[0] <= '\u{7f}');
        }
        assert(detected_hint(b) == EncodingHint::SingleByte);
        vstd::utf8::encode_utf8_valid_utf8(s);
        vstd::utf8::encode_utf8_decode_utf8(s);
    }
}

} // verus!
