//! Texts in UTF-16, the way SMB2 writes names.

use crate::bytes::{le16, le16_at, put_u16_le, read_u16_le};
use crate::text::chars_of;
use vstd::prelude::*;

verus! {

/// What stands for a unit that makes no sense where it is.
pub const REPLACEMENT: char = '\u{FFFD}';

/// The numbers that are characters.
pub open spec fn is_scalar(v: int) -> bool {
    0 <= v <= 0xD7FF || 0xE000 <= v <= 0x10FFFF
}

/// `char::from_u32`: the character of a number, where the number is one.
pub assume_specification[ char::from_u32 ](v: u32) -> (r: Option<char>)
    ensures
        r == (if is_scalar(v as int) {
            Some(v as char)
        } else {
            None
        }),
;

/// The units of one character: itself, or a pair of surrogates.
pub open spec fn char_units(c: char) -> Seq<u16> {
    let v = c as int;
    if v < 0x10000 {
        seq![v as u16]
    } else {
        seq![
            (0xD800 + (v - 0x10000) / 0x400) as u16,
            (0xDC00 + (v - 0x10000) % 0x400) as u16,
        ]
    }
}

/// The units of a text.
pub open spec fn text_units(s: Seq<char>) -> Seq<u16>
    decreases s.len(),
{
    if s.len() == 0 {
        Seq::empty()
    } else {
        char_units(s[0]) + text_units(s.skip(1))
    }
}

/// Units as bytes, each with its low byte first.
pub open spec fn unit_bytes(units: Seq<u16>) -> Seq<u8>
    decreases units.len(),
{
    if units.len() == 0 {
        Seq::empty()
    } else {
        le16(units[0]) + unit_bytes(units.skip(1))
    }
}

/// A text as bytes.
pub open spec fn utf16le(s: Seq<char>) -> Seq<u8> {
    unit_bytes(text_units(s))
}

/// The units in bytes; an odd byte at the end is left out.
pub open spec fn byte_units(b: Seq<u8>) -> Seq<u16> {
    Seq::new(b.len() / 2, |i: int| le16_at(b, 2 * i))
}

/// The first unit of a pair of surrogates.
pub open spec fn is_high(u: u16) -> bool {
    0xD800 <= u <= 0xDBFF
}

/// The second unit of a pair of surrogates.
pub open spec fn is_low(u: u16) -> bool {
    0xDC00 <= u <= 0xDFFF
}

/// The character of a pair of surrogates.
pub open spec fn paired(high: u16, low: u16) -> char {
    (0x10000 + (high - 0xD800) * 0x400 + (low - 0xDC00)) as char
}

/// The text of units. A surrogate without its partner gives [`REPLACEMENT`].
pub open spec fn units_text(units: Seq<u16>) -> Seq<char>
    decreases units.len(),
{
    if units.len() == 0 {
        Seq::empty()
    } else if is_high(units[0]) && units.len() > 1 && is_low(units[1]) {
        seq![paired(units[0], units[1])] + units_text(units.skip(2))
    } else if is_high(units[0]) || is_low(units[0]) {
        seq![REPLACEMENT] + units_text(units.skip(1))
    } else {
        seq![units[0] as char] + units_text(units.skip(1))
    }
}

/// The text of bytes.
pub open spec fn utf16le_text(b: Seq<u8>) -> Seq<char> {
    units_text(byte_units(b))
}

proof fn lemma_char_units(c: char, rest: Seq<u16>)
    ensures
        units_text(char_units(c) + rest) == seq![c] + units_text(rest),
{
    let u = char_units(c) + rest;
    let v = c as int;
    assert(is_scalar(v));
    if v < 0x10000 {
        assert(u.skip(1) =~= rest);
        assert(u[0] as int == v);
        assert((u[0] as char) == c);
    } else {
        assert(u.skip(2) =~= rest);
        assert(u[0] == 0xD800 + (v - 0x10000) / 0x400);
        assert(u[1] == 0xDC00 + (v - 0x10000) % 0x400);
        assert(paired(u[0], u[1]) == c);
    }
}

proof fn lemma_units_text(s: Seq<char>)
    ensures
        units_text(text_units(s)) == s,
    decreases s.len(),
{
    if s.len() > 0 {
        lemma_units_text(s.skip(1));
        lemma_char_units(s[0], text_units(s.skip(1)));
        assert(seq![s[0]] + s.skip(1) =~= s);
    } else {
        assert(s =~= Seq::empty());
    }
}

proof fn lemma_byte_units(units: Seq<u16>)
    ensures
        unit_bytes(units).len() == 2 * units.len(),
        byte_units(unit_bytes(units)) == units,
    decreases units.len(),
{
    if units.len() > 0 {
        let b = unit_bytes(units);
        let rest = unit_bytes(units.skip(1));
        lemma_byte_units(units.skip(1));
        crate::bytes::law_le16_round_trip(units[0]);
        assert(b == le16(units[0]) + rest);
        assert forall|i: int| 0 <= i < units.len() implies #[trigger] byte_units(b)[i]
            == units[i] by {
            if i == 0 {
                assert(b[0] == le16(units[0])[0] && b[1] == le16(units[0])[1]);
            } else {
                assert(b[2 * i] == rest[2 * (i - 1)] && b[2 * i + 1] == rest[2 * (i - 1) + 1]);
                assert(byte_units(rest)[i - 1] == units.skip(1)[i - 1]);
            }
        }
        assert(byte_units(b) =~= units);
    } else {
        assert(byte_units(unit_bytes(units)) =~= units);
    }
}

/// A text reads back as it was written.
pub proof fn law_text_reads_back(s: Seq<char>)
    ensures
        utf16le_text(utf16le(s)) == s,
        utf16le(s).len() == 2 * text_units(s).len(),
{
    lemma_byte_units(text_units(s));
    lemma_units_text(s);
}

proof fn lemma_unit_bytes_concat(a: Seq<u16>, b: Seq<u16>)
    ensures
        unit_bytes(a + b) == unit_bytes(a) + unit_bytes(b),
    decreases a.len(),
{
    if a.len() > 0 {
        lemma_unit_bytes_concat(a.skip(1), b);
        assert((a + b).skip(1) =~= a.skip(1) + b);
        assert(unit_bytes(a + b) =~= unit_bytes(a) + unit_bytes(b));
    } else {
        assert(a + b =~= b);
        assert(unit_bytes(a) + unit_bytes(b) =~= unit_bytes(b));
    }
}

fn put_char(out: &mut Vec<u8>, c: char)
    ensures
        final(out)@ == old(out)@ + unit_bytes(char_units(c)),
{
    reveal_with_fuel(unit_bytes, 3);
    let v = c as u32;
    if v < 0x10000 {
        put_u16_le(out, v as u16);
        assert(char_units(c).skip(1) =~= Seq::empty());
        assert(out@ =~= old(out)@ + unit_bytes(char_units(c)));
    } else {
        let high = (0xD800 + (v - 0x10000) / 0x400) as u16;
        let low = (0xDC00 + (v - 0x10000) % 0x400) as u16;
        put_u16_le(out, high);
        put_u16_le(out, low);
        assert(char_units(c).skip(1) =~= seq![low]);
        assert(char_units(c).skip(1).skip(1) =~= Seq::empty());
        assert(out@ =~= old(out)@ + unit_bytes(char_units(c)));
    }
}

/// Writes a text in UTF-16.
pub fn to_utf16le(s: &str) -> (out: Vec<u8>)
    ensures
        out@ == utf16le(s@),
{
    let chars = chars_of(s);
    let mut out: Vec<u8> = Vec::new();
    let mut i: usize = 0;
    assert(chars@.skip(0) =~= chars@);
    assert(out@ + utf16le(chars@.skip(0)) =~= utf16le(chars@));
    while i < chars.len()
        invariant
            i <= chars@.len(),
            out@ + utf16le(chars@.skip(i as int)) == utf16le(chars@),
        decreases chars@.len() - i,
    {
        let ghost rest = chars@.skip(i as int);
        let ghost before = out@;
        put_char(&mut out, chars[i]);
        proof {
            assert(rest.skip(1) =~= chars@.skip(i + 1));
            lemma_unit_bytes_concat(char_units(rest[0]), text_units(rest.skip(1)));
            assert(out@ + utf16le(rest.skip(1)) =~= before + utf16le(rest));
        }
        i += 1;
    }
    assert(chars@.skip(i as int) =~= Seq::empty());
    assert(out@ + Seq::<u8>::empty() =~= out@);
    out
}

/// Reads a text in UTF-16.
pub fn from_utf16le(data: &[u8]) -> (r: String)
    ensures
        r@ == utf16le_text(data@),
{
    let count = data.len() / 2;
    let ghost units = byte_units(data@);
    let mut out = String::new();
    let mut i: usize = 0;
    assert(units.skip(0) =~= units);
    assert(out@ + units_text(units.skip(0)) =~= units_text(units));
    while i < count
        invariant
            i <= count,
            count == data@.len() / 2,
            units == byte_units(data@),
            out@ + units_text(units.skip(i as int)) == units_text(units),
        decreases count - i,
    {
        let ghost rest = units.skip(i as int);
        let ghost before = out@;
        assert(data.len() <= usize::MAX);
        let u = read_u16_le(data, 2 * i);
        assert(u == rest[0]);
        assert(rest.skip(1) =~= units.skip(i + 1));
        if 0xD800 <= u && u <= 0xDBFF && i + 1 < count {
            let w = read_u16_le(data, 2 * (i + 1));
            assert(w == rest[1]);
            if 0xDC00 <= w && w <= 0xDFFF {
                let v = 0x10000 + (u as u32 - 0xD800) * 0x400 + (w as u32 - 0xDC00);
                let c = match char::from_u32(v) {
                    Some(c) => c,
                    None => REPLACEMENT,
                };
                out.push(c);
                assert(rest.skip(2) =~= units.skip(i + 2));
                assert(out@ + units_text(rest.skip(2)) =~= before + units_text(rest));
                i += 2;
                continue;
            }
        }
        if 0xD800 <= u && u <= 0xDFFF {
            out.push(REPLACEMENT);
        } else {
            let c = match char::from_u32(u as u32) {
                Some(c) => c,
                None => REPLACEMENT,
            };
            out.push(c);
        }
        assert(out@ + units_text(rest.skip(1)) =~= before + units_text(rest));
        i += 1;
    }
    assert(units.skip(i as int) =~= Seq::empty());
    assert(out@ + Seq::<char>::empty() =~= out@);
    out
}

/// Texts are written one behind the other: a text in two parts is the bytes of
/// the first and then those of the second.
pub proof fn law_texts_join(a: Seq<char>, b: Seq<char>)
    ensures
        utf16le(a + b) == utf16le(a) + utf16le(b),
    decreases a.len(),
{
    if a.len() == 0 {
        assert(a + b =~= b);
        assert(utf16le(a) + utf16le(b) =~= utf16le(b));
    } else {
        law_texts_join(a.skip(1), b);
        assert((a + b).skip(1) =~= a.skip(1) + b);
        let c = char_units(a[0]);
        lemma_unit_bytes_concat(c, text_units(a.skip(1) + b));
        lemma_unit_bytes_concat(c, text_units(a.skip(1)));
        assert(unit_bytes(c) + (utf16le(a.skip(1)) + utf16le(b)) =~= (unit_bytes(c) + utf16le(
            a.skip(1),
        )) + utf16le(b));
    }
}

/// A character of the first plane is its number in two bytes, the low one first.
/// Any other takes two units, of which the first holds the high ten bits of what
/// exceeds 0xFFFF and the second the low ten.
pub proof fn law_characters_have_their_units(c: char)
    ensures
        ({
            let b = utf16le(seq![c]);
            let v = c as int;
            if v < 0x1_0000 {
                &&& b.len() == 2
                &&& b[0] + 0x100 * b[1] == v
            } else {
                let high = b[0] + 0x100 * b[1];
                let low = b[2] + 0x100 * b[3];
                &&& b.len() == 4
                &&& 0xD800 <= high < 0xDC00
                &&& 0xDC00 <= low < 0xE000
                &&& 0x1_0000 + (high - 0xD800) * 0x400 + (low - 0xDC00) == v
            }
        }),
{
    let one = seq![c];
    let units = char_units(c);
    assert(one.skip(1) =~= Seq::empty());
    assert(text_units(one.skip(1)) =~= Seq::empty());
    assert(text_units(one) =~= units);
    let b = utf16le(one);
    let first = units[0];
    crate::bytes::law_le16_round_trip(first);
    crate::bytes::law_little_end_first(le16(first), 0);
    reveal_with_fuel(unit_bytes, 3);
    if (c as int) < 0x1_0000 {
        assert(units.skip(1) =~= Seq::empty());
        assert(b =~= le16(first));
    } else {
        let second = units[1];
        crate::bytes::law_le16_round_trip(second);
        crate::bytes::law_little_end_first(le16(second), 0);
        assert(units.skip(1) =~= seq![second]);
        assert(units.skip(1).skip(1) =~= Seq::empty());
        assert(b =~= le16(first) + le16(second));
    }
}

/// Half of a pair that stands alone reads as the character for what cannot be
/// read.
pub proof fn law_lone_halves_are_replaced(b: Seq<u8>)
    requires
        b.len() == 2,
        0xD8 <= b[1] < 0xE0,
    ensures
        utf16le_text(b) == seq!['\u{FFFD}'],
{
    crate::bytes::law_little_end_first(b, 0);
    let units = byte_units(b);
    assert(units.len() == 1);
    assert(units[0] == le16_at(b, 0));
    assert(units.skip(1) =~= Seq::empty());
    assert(units_text(units.skip(1)) =~= Seq::empty());
    assert(units_text(units) =~= seq![REPLACEMENT]);
}

} // verus!
