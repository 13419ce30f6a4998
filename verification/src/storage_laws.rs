//! What the bytes of packages stand for: integers, property tags, encrypted files.

use vstd::prelude::*;
use crate::properties::PropertyValue;
use crate::reader::{Dialect, TagModel};
use crate::encryption;
use crate::reader;
use crate::text;
use crate::utf16;
use crate::properties;

verus! {

/// The value of a compact integer with this sign and this magnitude.
pub open spec fn with_sign(negative: bool, magnitude: int) -> int {
    if negative {
        -magnitude
    } else {
        magnitude
    }
}

/// A compact integer is read from its bytes. The highest bit of the first is the sign,
/// the next says whether another follows, and the other six are the lowest of the number.
/// Of the following bytes the highest bit says whether another follows, and the other
/// seven belong to the number.
pub proof fn compact_integers_are_read(dialect: Dialect, d: Seq<u8>, p: int)
    requires
        0 <= p < d.len(),
    ensures
        ({
            let negative = d[p] >= 128;
            let low = d[p] % 64;
            &&& d[p] % 128 < 64 && (low > 0 || !negative) ==> reader::compact_at(dialect, d, p)
                == Ok::<(i32, int), Seq<char>>((with_sign(negative, low as int) as i32, p + 1))
            &&& d[p] % 128 >= 64 && p + 2 <= d.len() && 0 < d[p + 1] < 128 ==> reader::compact_at(
                dialect,
                d,
                p,
            ) == Ok::<(i32, int), Seq<char>>(
                (with_sign(negative, low + 64 * d[p + 1]) as i32, p + 2),
            )
            &&& d[p] % 128 >= 64 && p + 3 <= d.len() && d[p + 1] >= 128 && 0 < d[p + 2] < 128
                ==> reader::compact_at(dialect, d, p) == Ok::<(i32, int), Seq<char>>(
                (
                    with_sign(negative, low + 64 * (d[p + 1] - 128) + 8192 * d[p + 2]) as i32,
                    p + 3,
                ),
            )
            &&& d[p] % 128 >= 64 && p + 4 <= d.len() && d[p + 1] >= 128 && d[p + 2] >= 128 && 0 < d[p
                + 3] < 128 ==> reader::compact_at(dialect, d, p) == Ok::<(i32, int), Seq<char>>(
                (
                    with_sign(
                        negative,
                        low + 64 * (d[p + 1] - 128) + 8192 * (d[p + 2] - 128) + 1048576 * d[p + 3],
                    ) as i32,
                    p + 4,
                ),
            )
            &&& d[p] % 128 >= 64 && p + 5 <= d.len() && d[p + 1] >= 128 && d[p + 2] >= 128 && d[p
                + 3] >= 128 && 0 < d[p + 4] < 16 ==> reader::compact_at(dialect, d, p) == Ok::<
                (i32, int),
                Seq<char>,
            >(
                (
                    with_sign(
                        negative,
                        low + 64 * (d[p + 1] - 128) + 8192 * (d[p + 2] - 128) + 1048576 * (d[p + 3]
                            - 128) + 134217728 * d[p + 4],
                    ) as i32,
                    p + 5,
                ),
            )
        }),
{
    reveal(reader::compact_at);
}

/// The tag of a property starts with a byte: its low four bits are the type, the next
/// three say how long the value is, and the highest is the flag. A property that is no
/// flag and no structure and has no place in a list has its value behind that byte and
/// the bytes of its length.
pub proof fn property_tags_are_read(dialect: Dialect, d: Seq<u8>, p: int)
    requires
        0 <= p < d.len(),
        d.len() <= usize::MAX,
        d[p] % 16 != 10,
        d[p] < 128 || d[p] % 16 == 3,
    ensures
        ({
            let code = d[p] / 16 % 8;
            let fixed = if code == 0 {
                1int
            } else if code == 1 {
                2
            } else if code == 2 {
                4
            } else if code == 3 {
                12
            } else {
                16
            };
            let tag = TagModel {
                kind: (d[p] % 16) as u8,
                flag: d[p] >= 128,
                info: p,
                start: p + 1,
                size: fixed,
            };
            &&& code <= 4 ==> reader::tag_at(dialect, d, p) == Ok::<TagModel, Seq<char>>(tag)
            &&& code == 5 && p + 2 <= d.len() ==> reader::tag_at(dialect, d, p) == Ok::<
                TagModel,
                Seq<char>,
            >((TagModel { start: p + 2, size: d[p + 1] as int, ..tag }))
            &&& code == 6 && p + 3 <= d.len() ==> reader::tag_at(dialect, d, p) == Ok::<
                TagModel,
                Seq<char>,
            >((TagModel { start: p + 3, size: d[p + 1] + 256 * d[p + 2], ..tag }))
            &&& code == 7 && p + 5 <= d.len() && d[p + 4] < 128 ==> reader::tag_at(dialect, d, p)
                == Ok::<TagModel, Seq<char>>(
                (TagModel {
                    start: p + 5,
                    size: d[p + 1] + 256 * d[p + 2] + 65536 * d[p + 3] + 16777216 * d[p + 4],
                    ..tag
                }),
            )
        }),
{
    reveal(reader::tag_at);
    let code = d[p] / 16 % 8;
    if code == 6 && p + 3 <= d.len() {
        let s = d.subrange(p + 1, p + 3);
        assert(s[0] == d[p + 1] && s[1] == d[p + 2]);
    }
    if code == 7 && p + 5 <= d.len() {
        let s = d.subrange(p + 1, p + 5);
        assert(s[0] == d[p + 1] && s[1] == d[p + 2] && s[2] == d[p + 3] && s[3] == d[p + 4]);
    }
}

/// The value of a property goes by its type: a byte, an integer, a flag, a decimal or a
/// reference.
pub proof fn values_go_by_type(kind: u8, flag: bool, b: Seq<u8>)
    ensures
        kind == 1 && b.len() == 1 ==> properties::decoded_value(kind, flag, b) == Ok::<
            PropertyValue,
            Seq<char>,
        >(PropertyValue::Byte(b[0])),
        kind == 3 ==> properties::decoded_value(kind, flag, b) == Ok::<PropertyValue, Seq<char>>(
            PropertyValue::Bool(flag),
        ),
        kind == 2 && b.len() == 4 && b[3] < 128 ==> properties::decoded_value(kind, flag, b) == Ok::<
            PropertyValue,
            Seq<char>,
        >(
            PropertyValue::Int(
                (b[0] + 256 * b[1] + 65536 * b[2] + 16777216 * b[3]) as i32,
            ),
        ),
        kind == 2 && b.len() == 4 && b[3] >= 128 ==> properties::decoded_value(kind, flag, b)
            == Ok::<PropertyValue, Seq<char>>(
            PropertyValue::Int(
                (b[0] + 256 * b[1] + 65536 * b[2] + 16777216 * b[3] - 4294967296) as i32,
            ),
        ),
        kind == 4 && b.len() == 4 ==> properties::decoded_value(kind, flag, b) == Ok::<
            PropertyValue,
            Seq<char>,
        >(
            PropertyValue::Float(
                (b[0] + 256 * b[1] + 65536 * b[2] + 16777216 * b[3]) as u32,
            ),
        ),
        kind == 5 && b.len() == 1 && b[0] < 64 ==> properties::decoded_value(kind, flag, b) == Ok::<
            PropertyValue,
            Seq<char>,
        >(PropertyValue::Object(b[0] as i32)),
        kind == 0 || kind > 5 ==> properties::decoded_value(kind, flag, b) == Ok::<
            PropertyValue,
            Seq<char>,
        >(PropertyValue::Raw),
{
    if b.len() > 0 {
        compact_integers_are_read(Dialect::Engine, b, 0);
    }
}

/// Whether a file starts with this text, two bytes for each character.
pub open spec fn starts_with_words(raw: Seq<u8>, words: Seq<char>) -> bool {
    &&& raw.len() >= 28
    &&& words.len() <= 14
    &&& forall|i: int|
        #![trigger words[i]]
        0 <= i < words.len() ==> raw[2 * i] == words[i] as int && raw[2 * i + 1] == 0
}

proof fn plain_units_are_letters(units: Seq<u16>, words: Seq<char>)
    requires
        words.len() <= units.len(),
        forall|i: int|
            #![trigger words[i]]
            0 <= i < words.len() ==> units[i] == words[i] as int && (words[i] as int) < 128,
    ensures
        utf16::utf16_text(units).len() >= words.len(),
        utf16::utf16_text(units).take(words.len() as int) == words,
        utf16::utf16_text(units).skip(words.len() as int) == utf16::utf16_text(
            units.skip(words.len() as int),
        ),
    decreases words.len(),
{
    let found = utf16::utf16_text(units);
    if words.len() == 0 {
        assert(units.skip(0) =~= units);
        assert(found.take(0) =~= words);
        assert(found.skip(0) =~= found);
    } else {
        let rest = words.skip(1);
        let others = units.skip(1);
        assert forall|i: int| #![trigger rest[i]] 0 <= i < rest.len() implies others[i] == rest[i]
            as int && (rest[i] as int) < 128 by {
            assert(rest[i] == words[i + 1]);
        }
        plain_units_are_letters(others, rest);
        let tail = utf16::utf16_text(others);
        assert(units[0] == words[0] as int);
        assert(found == seq![units[0] as char] + tail);
        assert(units[0] as char == words[0]);
        assert(found.take(words.len() as int) =~= words) by {
            assert forall|i: int| 0 <= i < words.len() implies found[i] == words[i] by {
                if i > 0 {
                    assert(found[i] == tail[i - 1]);
                    assert(tail.take(rest.len() as int)[i - 1] == rest[i - 1]);
                }
            }
        }
        assert(found.skip(words.len() as int) =~= tail.skip(rest.len() as int));
        assert(units.skip(words.len() as int) =~= others.skip(rest.len() as int));
    }
}

proof fn header_words(raw: Seq<u8>, words: Seq<char>)
    requires
        starts_with_words(raw, words),
        forall|i: int| 0 <= i < words.len() ==> (#[trigger] words[i] as int) < 128,
    ensures
        encryption::header_text(raw).len() >= words.len(),
        encryption::header_text(raw).take(words.len() as int) == words,
        words.len() == 14 ==> encryption::header_text(raw) == words,
{
    let head = raw.take(28);
    let units = reader::units_of_bytes(head);
    assert forall|i: int|
        #![trigger words[i]]
        0 <= i < words.len() implies units[i] == words[i] as int by {
        let s = head.subrange(2 * i, 2 * i + 2);
        assert(s[0] == raw[2 * i] && s[1] == raw[2 * i + 1]);
    }
    plain_units_are_letters(units, words);
    if words.len() == 14 {
        assert(units.skip(14).len() == 0);
        assert(utf16::utf16_text(units.skip(14)).len() == 0);
        assert(encryption::header_text(raw) =~= words);
    }
}

proof fn three_digits(s: Seq<char>, a: char, b: char, c: char)
    requires
        s == seq![a, b, c],
        text::is_digit(a),
        text::is_digit(b),
        text::is_digit(c),
    ensures
        text::leading_digits(s) == s,
        text::number_of(s) == 100 * text::digit_value(a) + 10 * text::digit_value(b)
            + text::digit_value(c),
{
    assert(s.skip(1) =~= seq![b, c]);
    assert(seq![b, c].skip(1) =~= seq![c]);
    assert(seq![c].skip(1) =~= Seq::<char>::empty());
    assert(text::leading_digits(Seq::<char>::empty()) == Seq::<char>::empty());
    assert(text::leading_digits(seq![c]) =~= seq![c]);
    assert(text::leading_digits(seq![b, c]) =~= seq![b, c]);
    assert(text::leading_digits(s) =~= s);
    assert(s.drop_last() =~= seq![a, b]);
    assert(seq![a, b].drop_last() =~= seq![a]);
    assert(seq![a].drop_last() =~= Seq::<char>::empty());
    assert(text::number_of(Seq::<char>::empty()) == 0);
    assert(text::number_of(seq![a]) == text::digit_value(a));
    assert(text::number_of(seq![a, b]) == 10 * text::digit_value(a) + text::digit_value(b));
}

/// A file whose header names version 111 is opened by combining every byte behind the
/// header with one key byte, which is the same for all files.
#[verifier::spinoff_prover]
pub proof fn files_of_version_111_are_opened(raw: Seq<u8>, file_name: Seq<char>, i: int)
    requires
        starts_with_words(raw, "Lineage2Ver111"@),
        28 <= i < raw.len(),
    ensures
        encryption::decrypted(raw, file_name) matches Ok(m) && m.encrypted && m.working.len()
            == raw.len() - 28 && m.working[i - 28] == raw[i] ^ 0x2c && m.header == raw.take(28)
            && m.key == 0x2c,
{
    reveal_strlit("Lineage2Ver111");
    reveal_strlit("Lineage2Ver");
    header_words(raw, "Lineage2Ver111"@);
    let found = encryption::header_text(raw);
    assert(found.take(11) =~= "Lineage2Ver"@);
    assert(found.skip(11) =~= seq!['1', '1', '1']);
    three_digits(found.skip(11), '1', '1', '1');
}

/// A file whose header names version 121 is opened by combining every byte behind the
/// header with one key byte: the sum of the letters of its name in small letters.
#[verifier::spinoff_prover]
pub proof fn files_of_version_121_are_opened(raw: Seq<u8>, file_name: Seq<char>, i: int)
    requires
        starts_with_words(raw, "Lineage2Ver121"@),
        28 <= i < raw.len(),
    ensures
        ({
            let units = utf16::utf16_units(encryption::unicode_lowercase(file_name));
            let key = (sum_of_units(units) % 256) as u8;
            encryption::decrypted(raw, file_name) matches Ok(m) && m.encrypted && m.working.len()
                == raw.len() - 28 && m.working[i - 28] == raw[i] ^ key && m.header == raw.take(28)
        }),
{
    reveal_strlit("Lineage2Ver121");
    reveal_strlit("Lineage2Ver");
    header_words(raw, "Lineage2Ver121"@);
    let found = encryption::header_text(raw);
    assert(found.take(11) =~= "Lineage2Ver"@);
    assert(found.skip(11) =~= seq!['1', '2', '1']);
    three_digits(found.skip(11), '1', '2', '1');
    sums_are_alike(utf16::utf16_units(encryption::unicode_lowercase(file_name)));
}

/// The sum of numbers, from the first on.
pub open spec fn sum_of_units(units: Seq<u16>) -> int
    decreases units.len(),
{
    if units.len() == 0 {
        0
    } else {
        units[0] + sum_of_units(units.skip(1))
    }
}

proof fn sums_with_last(units: Seq<u16>, last: u16)
    ensures
        sum_of_units(units.push(last)) == sum_of_units(units) + last,
    decreases units.len(),
{
    if units.len() > 0 {
        assert(units.push(last).skip(1) =~= units.skip(1).push(last));
        sums_with_last(units.skip(1), last);
    } else {
        assert(units.push(last).skip(1) =~= units);
        assert(sum_of_units(units) == 0);
    }
}

proof fn sums_are_alike(units: Seq<u16>)
    ensures
        sum_of_units(units) == encryption::unit_sum(units),
    decreases units.len(),
{
    if units.len() > 0 {
        sums_are_alike(units.drop_last());
        sums_with_last(units.drop_last(), units.last());
        assert(units.drop_last().push(units.last()) =~= units);
    }
}

/// A character beyond the first plane is stored as two code units: the higher ten bits
/// first. Every other character is its own code unit.
pub proof fn characters_have_code_units(c: char)
    ensures
        ({
            let units = utf16::utf16_units(seq![c]);
            &&& (c as int) < 65536 ==> units.len() == 1 && units[0] == c as int
            &&& c as int >= 65536 ==> {
                &&& units.len() == 2
                &&& 0xD800 <= units[0] < 0xDC00
                &&& 0xDC00 <= units[1] < 0xE000
                &&& c as int == 65536 + (units[0] - 0xD800) * 1024 + (units[1] - 0xDC00)
            }
        }),
{
    utf16::char_range(c);
    assert(seq![c].skip(1) =~= Seq::<char>::empty());
    assert(utf16::utf16_units(Seq::<char>::empty()) =~= Seq::<u16>::empty());
    assert(utf16::utf16_units(seq![c]) =~= utf16::char_units(c));
}

/// A plain text is stored with its length and one more, its characters, and a zero.
pub proof fn plain_texts_are_stored(s: Seq<char>, i: int)
    requires
        s.len() < 63,
        forall|k: int| 0 <= k < s.len() ==> (#[trigger] s[k] as int) < 128,
        0 <= i < s.len(),
    ensures
        ({
            let b = reader::string_bytes(s);
            &&& b.len() == s.len() + 2
            &&& b[0] == s.len() + 1
            &&& b[1 + i] == s[i] as int
            &&& b.last() == 0
        }),
{
    reveal(reader::string_bytes);
    reveal(reader::compact_bytes);
    assert forall|k: int| 0 <= k < s.len() implies 0 <= (#[trigger] s[k] as int) < 128 by {
        utf16::char_range(s[k]);
    }
    assert(text::all_ascii(s));
    assert(text::ascii_bytes(s).len() == s.len());
}

/// An encrypted file of any other version is refused, and so is one without a version. A
/// file without such a header is taken as it stands.
pub proof fn other_versions_are_refused(raw: Seq<u8>, file_name: Seq<char>)
    ensures
        encryption::has_encryption_header(raw) && (encryption::version_digits(raw).len() == 0 || (
        text::number_of(encryption::version_digits(raw)) != 111 && text::number_of(
            encryption::version_digits(raw),
        ) != 121)) ==> encryption::decrypted(raw, file_name) is Err,
        !encryption::has_encryption_header(raw) ==> (encryption::decrypted(raw, file_name)
            matches Ok(m) && m.working == raw && !m.encrypted),
        raw.len() < 28 ==> !encryption::has_encryption_header(raw),
{
}

} // verus!
