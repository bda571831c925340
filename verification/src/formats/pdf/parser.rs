//! Reading text out of PDF string operands.

use vstd::prelude::*;

use crate::formats::pdf::encoding::{units_of, utf16_lossy};

verus! {

/// The characters at or above U+0020 (control characters are dropped).
pub open spec fn printable(s: Seq<char>) -> Seq<char>
    decreases s.len(),
{
    if s.len() == 0 {
        seq![]
    } else if (s.last() as u32) >= 0x20 {
        printable(s.drop_last()).push(s.last())
    } else {
        printable(s.drop_last())
    }
}

/// Latin-1 reading of the bytes at or above 0x20.
pub open spec fn latin1_printable(b: Seq<u8>) -> Seq<char>
    decreases b.len(),
{
    if b.len() == 0 {
        seq![]
    } else if b.last() >= 0x20 {
        latin1_printable(b.drop_last()).push((b.last() as u32) as char)
    } else {
        latin1_printable(b.drop_last())
    }
}

/// The text of a PDF string for extraction: UTF-16BE after a byte-order mark
/// (a trailing odd byte reads as a zero unit), otherwise Latin-1; control
/// characters are dropped either way.
pub open spec fn extracted_text(b: Seq<u8>) -> Seq<char> {
    if b.len() >= 2 && b[0] == 0xFE && b[1] == 0xFF {
        let rest = b.skip(2);
        let units = units_of(rest, true) + if rest.len() % 2 == 1 {
            seq![0u16]
        } else {
            seq![]
        };
        printable(utf16_lossy(units))
    } else {
        latin1_printable(b)
    }
}

fn keep_printable(c: &Vec<char>) -> (r: Vec<char>)
    ensures
        r@ == printable(c@),
{
    let mut r: Vec<char> = Vec::new();
    let mut i: usize = 0;
    while i < c.len()
        invariant
            i <= c.len(),
            r@ == printable(c@.take(i as int)),
        decreases c.len() - i,
    {
        assert(c@.take(i as int + 1).drop_last() =~= c@.take(i as int));
        if c[i] as u32 >= 0x20 {
            r.push(c[i]);
        }
        i = i + 1;
    }
    assert(c@.take(c.len() as int) =~= c@);
    r
}

/// Decodes a PDF string operand for text extraction (see `extracted_text`).
pub fn decode_pdf_string(bytes: &[u8]) -> (s: String)
    ensures
        s@ == extracted_text(bytes@),
{
    if bytes.len() >= 2 && bytes[0] == 0xFE && bytes[1] == 0xFF {
        let ghost rest = bytes@.skip(2);
        let n = (bytes.len() - 2) / 2;
        let mut u: Vec<u16> = Vec::new();
        let mut i: usize = 0;
        while i < n
            invariant
                i <= n,
                n == (bytes.len() - 2) / 2,
                bytes.len() >= 2,
                rest == bytes@.skip(2),
                u@ == units_of(rest, true).take(i as int),
            decreases n - i,
        {
            let x = bytes[2 + 2 * i] as u16;
            let y = bytes[2 + 2 * i + 1] as u16;
            u.push(x * 256 + y);
            assert(rest[2 * i as int] == bytes@[2 + 2 * i]);
            assert(rest[2 * i + 1] == bytes@[2 + 2 * i + 1]);
            i = i + 1;
            assert(u@ =~= units_of(rest, true).take(i as int));
        }
        assert(units_of(rest, true).take(n as int) =~= units_of(rest, true));
        if (bytes.len() - 2) % 2 == 1 {
            u.push(0);
        }
        assert(u@ =~= units_of(rest, true) + if rest.len() % 2 == 1 {
            seq![0u16]
        } else {
            seq![]
        });
        let c = crate::formats::pdf::encoding::decode_units_lossy(&u);
        let p = keep_printable(&c);
        return crate::text::string_from_chars(p.as_slice());
    }
    let mut r: Vec<char> = Vec::new();
    let mut i: usize = 0;
    while i < bytes.len()
        invariant
            i <= bytes.len(),
            r@ == latin1_printable(bytes@.take(i as int)),
        decreases bytes.len() - i,
    {
        assert(bytes@.take(i as int + 1).drop_last() =~= bytes@.take(i as int));
        if bytes[i] >= 0x20 {
            r.push(crate::text::char_from_scalar(bytes[i] as u32));
        }
        i = i + 1;
    }
    assert(bytes@.take(bytes.len() as int) =~= bytes@);
    crate::text::string_from_chars(r.as_slice())
}

} // verus!
