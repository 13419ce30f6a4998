//! UTF-16 code units and the lossy decoding of bytes to text.

use vstd::prelude::*;
use vstd::utf8::*;

verus! {

/// `char::from_u32` gives the character of a Unicode scalar value and `None`
/// for every other number.
pub assume_specification[ char::from_u32 ](value: u32) -> (r: Option<char>)
    ensures
        r == (if value <= 0x10_FFFF && !(0xD800 <= value <= 0xDFFF) {
            Some(value as char)
        } else {
            None
        }),
;

/// What `String::from_utf8_lossy` makes of bytes that are not valid UTF-8.
pub uninterp spec fn lossy_utf8(bytes: Seq<u8>) -> Seq<char>;

/// The text of some bytes: their UTF-8 decoding where they are valid.
pub open spec fn utf8_text(bytes: Seq<u8>) -> Seq<char> {
    if valid_utf8(bytes) {
        decode_utf8(bytes)
    } else {
        lossy_utf8(bytes)
    }
}

/// `String::from_utf8_lossy` decodes valid UTF-8 exactly. What it puts in place
/// of malformed sequences depends on the bytes alone and is only named here.
#[verifier::external_body]
pub(crate) fn text_of_utf8(bytes: &[u8]) -> (r: String)
    ensures
        r@ == if valid_utf8(bytes@) {
            decode_utf8(bytes@)
        } else {
            lossy_utf8(bytes@)
        },
{
    String::from_utf8_lossy(bytes).into_owned()
}

/// `std::str::from_utf8` takes valid UTF-8, and gives its text, and refuses all
/// else.
#[verifier::external_body]
pub(crate) fn valid_text(bytes: &[u8]) -> (r: Option<String>)
    ensures
        match r {
            Some(text) => valid_utf8(bytes@) && text@ == decode_utf8(bytes@),
            None => !valid_utf8(bytes@),
        },
{
    match std::str::from_utf8(bytes) {
        Ok(text) => Some(text.to_owned()),
        Err(_) => None,
    }
}

pub open spec fn is_high_surrogate(unit: u16) -> bool {
    0xD800 <= unit <= 0xDBFF
}

pub open spec fn is_low_surrogate(unit: u16) -> bool {
    0xDC00 <= unit <= 0xDFFF
}

/// The code units of one character.
pub open spec fn char_units(c: char) -> Seq<u16> {
    if (c as int) < 0x1_0000 {
        seq![(c as int) as u16]
    } else {
        seq![
            (0xD800 + (c as int - 0x1_0000) / 1024) as u16,
            (0xDC00 + (c as int - 0x1_0000) % 1024) as u16,
        ]
    }
}

/// The code units of a text.
pub open spec fn utf16_units(s: Seq<char>) -> Seq<u16>
    decreases s.len(),
{
    if s.len() == 0 {
        Seq::empty()
    } else {
        char_units(s[0]) + utf16_units(s.skip(1))
    }
}

/// The character that a surrogate pair stands for.
pub open spec fn pair_char(high: u16, low: u16) -> char {
    (0x1_0000 + (high - 0xD800) * 1024 + (low - 0xDC00)) as char
}

/// The text of some code units, with U+FFFD for each unpaired surrogate.
pub open spec fn utf16_text(units: Seq<u16>) -> Seq<char>
    decreases units.len(),
{
    if units.len() == 0 {
        Seq::empty()
    } else if is_high_surrogate(units[0]) && units.len() > 1 && is_low_surrogate(units[1]) {
        seq![pair_char(units[0], units[1])] + utf16_text(units.skip(2))
    } else if is_high_surrogate(units[0]) || is_low_surrogate(units[0]) {
        seq!['\u{FFFD}'] + utf16_text(units.skip(1))
    } else {
        seq![units[0] as char] + utf16_text(units.skip(1))
    }
}

/// A character is a Unicode scalar value.
pub proof fn char_range(c: char)
    ensures
        0 <= c as int <= 0x10_FFFF,
        !(0xD800 <= c as int <= 0xDFFF),
        c as u32 == c as int,
        (c as int) as char == c,
{
}

/// Decoding the code units of a text gives the text.
pub proof fn utf16_round_trip(s: Seq<char>)
    ensures
        utf16_text(utf16_units(s)) == s,
    decreases s.len(),
{
    if s.len() == 0 {
        assert(utf16_text(utf16_units(s)) =~= s);
    } else {
        let units = utf16_units(s);
        let rest = utf16_units(s.skip(1));
        utf16_round_trip(s.skip(1));
        let c = s[0] as int;
        char_range(s[0]);
        if c < 0x1_0000 {
            assert(units[0] == c as u16);
            assert(units.skip(1) =~= rest);
            assert(units[0] as char == s[0]);
        } else {
            assert(units[0] == (0xD800 + (c - 0x1_0000) / 1024) as u16);
            assert(units[1] == (0xDC00 + (c - 0x1_0000) % 1024) as u16);
            assert(units.skip(2) =~= rest);
            assert(pair_char(units[0], units[1]) == s[0]);
        }
        assert(seq![s[0]] + s.skip(1) =~= s);
    }
}

/// A text has at least as many code units as characters.
pub proof fn utf16_units_len(s: Seq<char>)
    ensures
        utf16_units(s).len() >= s.len(),
    decreases s.len(),
{
    if s.len() > 0 {
        utf16_units_len(s.skip(1));
    }
}

pub fn encode_utf16(chars: &[char]) -> (r: Vec<u16>)
    ensures
        r@ == utf16_units(chars@),
{
    let mut out: Vec<u16> = Vec::new();
    let mut i: usize = 0;
    proof {
        assert(chars@.skip(0) =~= chars@);
    }
    while i < chars.len()
        invariant
            i <= chars@.len(),
            out@ + utf16_units(chars@.skip(i as int)) == utf16_units(chars@),
        decreases chars.len() - i,
    {
        let c: u32 = chars[i] as u32;
        proof {
            char_range(chars@[i as int]);
        }
        let ghost before = out@;
        let ghost rest = chars@.skip(i as int);
        if c < 0x1_0000 {
            out.push(c as u16);
        } else {
            out.push((0xD800 + (c - 0x1_0000) / 1024) as u16);
            out.push((0xDC00 + (c - 0x1_0000) % 1024) as u16);
        }
        i = i + 1;
        proof {
            assert(rest.skip(1) =~= chars@.skip(i as int));
            assert(out@ =~= before + char_units(rest[0]));
            assert(out@ + utf16_units(chars@.skip(i as int)) =~= before + utf16_units(rest));
        }
    }
    proof {
        assert(chars@.skip(i as int) =~= Seq::<char>::empty());
        assert(out@ =~= utf16_units(chars@));
    }
    out
}

pub fn decode_utf16_lossy(units: &[u16]) -> (r: String)
    ensures
        r@ == utf16_text(units@),
{
    let mut out = String::new();
    let mut i: usize = 0;
    proof {
        assert(units@.skip(0) =~= units@);
        assert(Seq::<char>::empty() + utf16_text(units@) =~= utf16_text(units@));
    }
    while i < units.len()
        invariant
            i <= units@.len(),
            out@ + utf16_text(units@.skip(i as int)) == utf16_text(units@),
        decreases units.len() - i,
    {
        let ghost before = out@;
        let ghost rest = units@.skip(i as int);
        let unit: u16 = units[i];
        let high = 0xD800 <= unit && unit <= 0xDBFF;
        let low = 0xDC00 <= unit && unit <= 0xDFFF;
        if high && i + 1 < units.len() && 0xDC00 <= units[i + 1] && units[i + 1] <= 0xDFFF {
            let code: u32 = 0x1_0000 + (unit as u32 - 0xD800) * 1024 + (units[i + 1] as u32
                - 0xDC00);
            match char::from_u32(code) {
                Some(c) => out.push(c),
                None => {},
            }
            i = i + 2;
            proof {
                assert(rest.skip(2) =~= units@.skip(i as int));
                assert(out@ =~= before + seq![pair_char(rest[0], rest[1])]);
            }
        } else if high || low {
            out.push('\u{FFFD}');
            i = i + 1;
            proof {
                assert(rest.skip(1) =~= units@.skip(i as int));
                assert(out@ =~= before + seq!['\u{FFFD}']);
            }
        } else {
            match char::from_u32(unit as u32) {
                Some(c) => out.push(c),
                None => {},
            }
            i = i + 1;
            proof {
                assert(rest.skip(1) =~= units@.skip(i as int));
                assert(out@ =~= before + seq![rest[0] as char]);
            }
        }
        proof {
            assert(out@ + utf16_text(units@.skip(i as int)) =~= before + utf16_text(rest));
        }
    }
    proof {
        assert(units@.skip(i as int) =~= Seq::<u16>::empty());
        assert(out@ =~= utf16_text(units@));
    }
    out
}

} // verus!
