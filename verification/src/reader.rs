//! The byte codec of Unreal packages: compact integers, strings and property
//! tags, read through a bounded cursor.

use vstd::prelude::*;
use vstd::slice::slice_subrange;
use crate::bytes;
use crate::text;
use crate::utf16;

verus! {

/// The part of the application that reads; it decides how a failure is worded.
#[derive(Debug, Clone, Copy, PartialEq, Eq, Structural)]
pub enum Dialect {
    Engine,
    Frontend,
    Geodata,
}

pub open spec fn truncated_text(dialect: Dialect) -> Seq<char> {
    match dialect {
        Dialect::Engine => "Dados de propriedade truncados."@,
        Dialect::Frontend => "Dados do pacote truncados."@,
        Dialect::Geodata => "Arquivo geodata truncado."@,
    }
}

pub open spec fn offset_text(dialect: Dialect) -> Seq<char> {
    match dialect {
        Dialect::Engine => "Offset de propriedade inválido."@,
        Dialect::Frontend => "Offset inválido."@,
        Dialect::Geodata => "Offset geodata inválido."@,
    }
}

pub open spec fn outside_text(dialect: Dialect) -> Seq<char> {
    match dialect {
        Dialect::Geodata => "Leitura além do fim do arquivo geodata."@,
        _ => "Leitura fora dos limites do pacote."@,
    }
}

pub open spec fn compact_text(dialect: Dialect) -> Seq<char> {
    match dialect {
        Dialect::Frontend => "Inteiro compacto fora do intervalo suportado."@,
        _ => "Inteiro compacto inválido."@,
    }
}

pub open spec fn count_text(dialect: Dialect, label: Seq<char>) -> Seq<char> {
    match dialect {
        Dialect::Frontend => "Contagem de "@ + label + " inválida no pacote."@,
        _ => "Contagem de "@ + label + " inválida."@,
    }
}

pub open spec fn bad_offset_text(dialect: Dialect, label: Seq<char>) -> Seq<char> {
    match dialect {
        Dialect::Frontend => "Offset de "@ + label + " inválido no pacote."@,
        _ => "Offset de "@ + label + " inválido."@,
    }
}

pub open spec fn property_size_text(dialect: Dialect) -> Seq<char> {
    match dialect {
        Dialect::Frontend => count_text(dialect, "propriedade"@),
        _ => "Tamanho de propriedade inválido."@,
    }
}

pub open spec fn long_name_text(dialect: Dialect) -> Seq<char> {
    match dialect {
        Dialect::Frontend => "Nome de textura muito longo."@,
        _ => "Nome Unreal grande demais."@,
    }
}

pub fn truncated_message(dialect: Dialect) -> (r: String)
    ensures
        r@ == truncated_text(dialect),
{
    match dialect {
        Dialect::Engine => "Dados de propriedade truncados.".to_owned(),
        Dialect::Frontend => "Dados do pacote truncados.".to_owned(),
        Dialect::Geodata => "Arquivo geodata truncado.".to_owned(),
    }
}

pub fn offset_message(dialect: Dialect) -> (r: String)
    ensures
        r@ == offset_text(dialect),
{
    match dialect {
        Dialect::Engine => "Offset de propriedade inválido.".to_owned(),
        Dialect::Frontend => "Offset inválido.".to_owned(),
        Dialect::Geodata => "Offset geodata inválido.".to_owned(),
    }
}

pub fn outside_message(dialect: Dialect) -> (r: String)
    ensures
        r@ == outside_text(dialect),
{
    match dialect {
        Dialect::Geodata => "Leitura além do fim do arquivo geodata.".to_owned(),
        _ => "Leitura fora dos limites do pacote.".to_owned(),
    }
}

pub fn compact_message(dialect: Dialect) -> (r: String)
    ensures
        r@ == compact_text(dialect),
{
    match dialect {
        Dialect::Frontend => "Inteiro compacto fora do intervalo suportado.".to_owned(),
        _ => "Inteiro compacto inválido.".to_owned(),
    }
}

pub fn count_message(dialect: Dialect, label: &str) -> (r: String)
    ensures
        r@ == count_text(dialect, label@),
{
    match dialect {
        Dialect::Frontend => text::join3("Contagem de ", label, " inválida no pacote."),
        _ => text::join3("Contagem de ", label, " inválida."),
    }
}

pub fn bad_offset_message(dialect: Dialect, label: &str) -> (r: String)
    ensures
        r@ == bad_offset_text(dialect, label@),
{
    match dialect {
        Dialect::Frontend => text::join3("Offset de ", label, " inválido no pacote."),
        _ => text::join3("Offset de ", label, " inválido."),
    }
}

pub fn property_size_message(dialect: Dialect) -> (r: String)
    ensures
        r@ == property_size_text(dialect),
{
    match dialect {
        Dialect::Frontend => count_message(dialect, "propriedade"),
        _ => "Tamanho de propriedade inválido.".to_owned(),
    }
}

pub fn long_name_message(dialect: Dialect) -> (r: String)
    ensures
        r@ == long_name_text(dialect),
{
    match dialect {
        Dialect::Frontend => "Nome de textura muito longo.".to_owned(),
        _ => "Nome Unreal grande demais.".to_owned(),
    }
}

pub open spec fn count_of(dialect: Dialect, value: i32, label: Seq<char>) -> Result<
    usize,
    Seq<char>,
> {
    if value >= 0 {
        Ok(value as usize)
    } else {
        Err(count_text(dialect, label))
    }
}

pub open spec fn offset_of(dialect: Dialect, value: i32, label: Seq<char>) -> Result<
    usize,
    Seq<char>,
> {
    if value >= 0 {
        Ok(value as usize)
    } else {
        Err(bad_offset_text(dialect, label))
    }
}

/// A stored count, which may not be negative.
pub fn read_count(dialect: Dialect, value: i32, label: &str) -> (r: Result<usize, String>)
    ensures
        text::seen(r) == count_of(dialect, value, label@),
{
    if value >= 0 {
        Ok(value as usize)
    } else {
        Err(count_message(dialect, label))
    }
}

/// A stored offset, which may not be negative.
pub fn read_offset(dialect: Dialect, value: i32, label: &str) -> (r: Result<usize, String>)
    ensures
        text::seen(r) == offset_of(dialect, value, label@),
{
    if value >= 0 {
        Ok(value as usize)
    } else {
        Err(bad_offset_message(dialect, label))
    }
}

/// The end of `size` bytes that start at `p`.
pub open spec fn exact_end(dialect: Dialect, d: Seq<u8>, p: int, size: int) -> Result<
    int,
    Seq<char>,
> {
    if p + size > usize::MAX {
        Err(offset_text(dialect))
    } else if p + size > d.len() {
        Err(truncated_text(dialect))
    } else {
        Ok(p + size)
    }
}

/// The position after skipping `size` bytes from `p`.
pub open spec fn skip_end(dialect: Dialect, d: Seq<u8>, p: int, size: int) -> Result<
    int,
    Seq<char>,
> {
    if p + size > usize::MAX {
        Err(offset_text(dialect))
    } else if p + size > d.len() {
        Err(outside_text(dialect))
    } else {
        Ok(p + size)
    }
}

pub open spec fn u8_at(dialect: Dialect, d: Seq<u8>, p: int) -> Result<(u8, int), Seq<char>> {
    if p < d.len() {
        Ok((d[p], p + 1))
    } else {
        Err(truncated_text(dialect))
    }
}

pub open spec fn u16_read(dialect: Dialect, d: Seq<u8>, p: int) -> Result<(u16, int), Seq<char>> {
    match exact_end(dialect, d, p, 2) {
        Ok(end) => Ok((bytes::u16_of(d.subrange(p, end)), end)),
        Err(e) => Err(e),
    }
}

pub open spec fn i16_read(dialect: Dialect, d: Seq<u8>, p: int) -> Result<(i16, int), Seq<char>> {
    match exact_end(dialect, d, p, 2) {
        Ok(end) => Ok((bytes::i16_of(d.subrange(p, end)), end)),
        Err(e) => Err(e),
    }
}

pub open spec fn i32_read(dialect: Dialect, d: Seq<u8>, p: int) -> Result<(i32, int), Seq<char>> {
    match exact_end(dialect, d, p, 4) {
        Ok(end) => Ok((bytes::i32_of(d.subrange(p, end)), end)),
        Err(e) => Err(e),
    }
}

/// The number of bytes of the compact integer at `p`: the second highest bit of
/// the first byte and the highest bit of the following ones announce another.
pub open spec fn compact_width(d: Seq<u8>, p: int) -> int {
    if (d[p] / 64) % 2 == 0 {
        1
    } else if d[p + 1] < 128 {
        2
    } else if d[p + 2] < 128 {
        3
    } else if d[p + 3] < 128 {
        4
    } else {
        5
    }
}

/// The magnitude of the compact integer at `p`: six bits from the first byte,
/// seven from the next three, five from the last.
pub open spec fn compact_magnitude(d: Seq<u8>, p: int) -> int {
    let w = compact_width(d, p);
    (d[p] % 64) + (if w > 1 {
        64 * (d[p + 1] % 128)
    } else {
        0
    }) + (if w > 2 {
        8192 * (d[p + 2] % 128)
    } else {
        0
    }) + (if w > 3 {
        1048576 * (d[p + 3] % 128)
    } else {
        0
    }) + (if w > 4 {
        134217728 * (d[p + 4] % 32)
    } else {
        0
    })
}

/// The compact integer at `p` and the position behind it. The highest bit of
/// the first byte is the sign; a negative zero stands for the least integer.
#[verifier::opaque]
pub open spec fn compact_at(dialect: Dialect, d: Seq<u8>, p: int) -> Result<(i32, int), Seq<char>> {
    let m = compact_magnitude(d, p);
    let end = p + compact_width(d, p);
    if p >= d.len() || end > d.len() {
        Err(truncated_text(dialect))
    } else if d[p] >= 128 {
        if m == 0 {
            Ok((i32::MIN, end))
        } else if m <= 0x8000_0000 {
            Ok(((-m) as i32, end))
        } else {
            Ok(((0x1_0000_0000 - m) as i32, end))
        }
    } else if m > i32::MAX {
        Err(compact_text(dialect))
    } else {
        Ok((m as i32, end))
    }
}

/// The shortest compact form of an integer.
#[verifier::opaque]
pub open spec fn compact_bytes(value: i32) -> Seq<u8> {
    let m: int = if value < 0 {
        -value
    } else {
        value as int
    };
    let sign: int = if value < 0 {
        128
    } else {
        0
    };
    if m < 64 {
        seq![(m % 64 + sign) as u8]
    } else {
        let first = (m % 64 + 64 + sign) as u8;
        if m < 8192 {
            seq![first, (m / 64) as u8]
        } else if m < 1048576 {
            seq![first, (m / 64 % 128 + 128) as u8, (m / 8192) as u8]
        } else if m < 134217728 {
            seq![
                first,
                (m / 64 % 128 + 128) as u8,
                (m / 8192 % 128 + 128) as u8,
                (m / 1048576) as u8,
            ]
        } else {
            seq![
                first,
                (m / 64 % 128 + 128) as u8,
                (m / 8192 % 128 + 128) as u8,
                (m / 1048576 % 128 + 128) as u8,
                (m / 134217728) as u8,
            ]
        }
    }
}

/// A compact integer takes at least one byte and ends inside the data.
pub proof fn compact_moves(dialect: Dialect, d: Seq<u8>, p: int)
    ensures
        compact_at(dialect, d, p) matches Ok((_, q)) ==> p < q <= d.len() && q <= p + 5,
{
    reveal(compact_at);
}

proof fn compact_digits(m: int)
    requires
        0 <= m < 0x1_0000_0000,
    ensures
        m == m % 64 + 64 * (m / 64 % 128) + 8192 * (m / 8192 % 128) + 1048576 * (m / 1048576 % 128)
            + 134217728 * (m / 134217728),
        m / 134217728 < 32,
        m < 134217728 ==> m / 1048576 % 128 == m / 1048576,
        m < 1048576 ==> m / 8192 % 128 == m / 8192 && m / 1048576 == 0,
        m < 8192 ==> m / 64 % 128 == m / 64 && m / 8192 == 0,
{
    let a = m / 64;
    let b = m / 8192;
    let c = m / 1048576;
    let e = m / 134217728;
    assert(m == m % 64 + 64 * a);
    assert(b == a / 128);
    assert(c == b / 128);
    assert(e == c / 128);
    assert(a == a % 128 + 128 * b);
    assert(b == b % 128 + 128 * c);
    assert(c == c % 128 + 128 * e);
}

/// The magnitude of an integer.
pub open spec fn magnitude(value: i32) -> int {
    if value < 0 {
        -value
    } else {
        value as int
    }
}

proof fn compact_bytes_shape(value: i32)
    ensures
        1 <= compact_bytes(value).len() <= 5,
        compact_width(compact_bytes(value), 0) == compact_bytes(value).len(),
        compact_magnitude(compact_bytes(value), 0) == magnitude(value),
        compact_bytes(value)[0] >= 128 <==> value < 0,
{
    reveal(compact_bytes);
    let c = compact_bytes(value);
    let m = magnitude(value);
    compact_digits(m);
    if m < 64 {
        assert(c.len() == 1);
        assert(c[0] / 64 % 2 == 0);
    } else {
        assert(c[0] / 64 % 2 == 1 && c[0] % 64 == m % 64);
        if m < 8192 {
            assert(c.len() == 2);
            assert(c[1] < 128 && c[1] % 128 == m / 64);
        } else {
            assert(c[1] >= 128 && c[1] % 128 == m / 64 % 128);
            if m < 1048576 {
                assert(c.len() == 3);
                assert(c[2] < 128 && c[2] % 128 == m / 8192);
            } else {
                assert(c[2] >= 128 && c[2] % 128 == m / 8192 % 128);
                if m < 134217728 {
                    assert(c.len() == 4);
                    assert(c[3] < 128 && c[3] % 128 == m / 1048576);
                } else {
                    assert(c.len() == 5);
                    assert(c[3] >= 128 && c[3] % 128 == m / 1048576 % 128);
                    assert(c[4] % 32 == m / 134217728);
                }
            }
        }
    }
}

/// Every integer is read back from its compact form, wherever it stands.
pub proof fn compact_round_trip(dialect: Dialect, before: Seq<u8>, value: i32, after: Seq<u8>)
    ensures
        compact_at(dialect, before + compact_bytes(value) + after, before.len() as int) == Ok::<
            (i32, int),
            Seq<char>,
        >((value, (before.len() + compact_bytes(value).len()) as int)),
        1 <= compact_bytes(value).len() <= 5,
{
    compact_bytes_shape(value);
    let c = compact_bytes(value);
    let d = before + c + after;
    let p = before.len() as int;
    assert(forall|i: int| 0 <= i < c.len() ==> d[p + i] == #[trigger] c[i]);
    assert(d[p + 0] == c[0]);
    if c.len() > 1 {
        assert(d[p + 1] == c[1]);
    }
    if c.len() > 2 {
        assert(d[p + 2] == c[2]);
    }
    if c.len() > 3 {
        assert(d[p + 3] == c[3]);
    }
    if c.len() > 4 {
        assert(d[p + 4] == c[4]);
    }
    compact_agrees(c, d, p);
    reveal(compact_at);
}

/// An integer is read wherever its compact form stands.
pub proof fn compact_here(dialect: Dialect, d: Seq<u8>, p: int, value: i32)
    requires
        0 <= p,
        p + compact_bytes(value).len() <= d.len(),
        d.subrange(p, p + compact_bytes(value).len()) == compact_bytes(value),
    ensures
        compact_at(dialect, d, p) == Ok::<(i32, int), Seq<char>>(
            (value, p + compact_bytes(value).len()),
        ),
        1 <= compact_bytes(value).len() <= 5,
{
    let c = compact_bytes(value);
    let after = d.skip(p + c.len());
    assert(d =~= d.take(p) + c + after);
    compact_round_trip(dialect, d.take(p), value, after);
}

/// A compact integer has one to five bytes.
pub proof fn compact_len(value: i32)
    ensures
        1 <= compact_bytes(value).len() <= 5,
{
    compact_bytes_shape(value);
}

proof fn compact_agrees(c: Seq<u8>, d: Seq<u8>, p: int)
    requires
        compact_width(c, 0) == c.len(),
        d[p] == c[0],
        c.len() > 1 ==> d[p + 1] == c[1],
        c.len() > 2 ==> d[p + 2] == c[2],
        c.len() > 3 ==> d[p + 3] == c[3],
        c.len() > 4 ==> d[p + 4] == c[4],
    ensures
        compact_width(d, p) == compact_width(c, 0),
        compact_magnitude(d, p) == compact_magnitude(c, 0),
{
}

/// Appends the compact form of `value`.
pub fn write_compact(output: &mut Vec<u8>, value: i32)
    ensures
        final(output)@ == old(output)@ + compact_bytes(value),
{
    reveal(compact_bytes);
    let ghost start = output@;
    let magnitude: u32 = if value < 0 {
        (-(value as i64)) as u32
    } else {
        value as u32
    };
    let sign: u32 = if value < 0 {
        128
    } else {
        0
    };
    if magnitude < 64 {
        output.push((magnitude % 64 + sign) as u8);
    } else {
        output.push((magnitude % 64 + 64 + sign) as u8);
        if magnitude < 8192 {
            output.push((magnitude / 64) as u8);
        } else {
            output.push((magnitude / 64 % 128 + 128) as u8);
            if magnitude < 1048576 {
                output.push((magnitude / 8192) as u8);
            } else {
                output.push((magnitude / 8192 % 128 + 128) as u8);
                if magnitude < 134217728 {
                    output.push((magnitude / 1048576) as u8);
                } else {
                    output.push((magnitude / 1048576 % 128 + 128) as u8);
                    output.push((magnitude / 134217728) as u8);
                }
            }
        }
    }
    assert(output@ =~= start + compact_bytes(value));
}

/// The little-endian bytes of code units.
pub open spec fn unit_bytes(units: Seq<u16>) -> Seq<u8>
    decreases units.len(),
{
    if units.len() == 0 {
        Seq::empty()
    } else {
        unit_bytes(units.drop_last()) + bytes::le16(units.last())
    }
}

/// The code units that an even number of bytes holds.
pub open spec fn units_of_bytes(b: Seq<u8>) -> Seq<u16> {
    Seq::new(b.len() / 2, |i: int| bytes::u16_of(b.subrange(2 * i, 2 * i + 2)))
}

pub proof fn unit_bytes_round_trip(units: Seq<u16>)
    ensures
        unit_bytes(units).len() == 2 * units.len(),
        units_of_bytes(unit_bytes(units)) == units,
    decreases units.len(),
{
    if units.len() > 0 {
        let init = units.drop_last();
        unit_bytes_round_trip(init);
        let b = unit_bytes(units);
        assert forall|i: int| 0 <= i < units.len() implies #[trigger] units_of_bytes(b)[i]
            == units[i] by {
            if i < init.len() {
                assert(b.subrange(2 * i, 2 * i + 2) =~= unit_bytes(init).subrange(2 * i, 2 * i + 2));
                assert(units_of_bytes(unit_bytes(init))[i] == init[i]);
            } else {
                assert(b.subrange(2 * i, 2 * i + 2) =~= bytes::le16(units.last()));
                bytes::integers_round_trip(0, 0, units.last(), 0);
            }
        }
    }
    assert(units_of_bytes(unit_bytes(units)) =~= units);
}

/// The stored form of a string: its length with a final zero, then ASCII bytes
/// or, for a text that is not ASCII, UTF-16 code units under a negative length.
#[verifier::opaque]
pub open spec fn string_bytes(s: Seq<char>) -> Seq<u8> {
    if text::all_ascii(s) {
        compact_bytes((s.len() + 1) as i32) + text::ascii_bytes(s) + seq![0u8]
    } else {
        compact_bytes((-(utf16::utf16_units(s).len() + 1)) as i32) + unit_bytes(utf16::utf16_units(s)) + seq![
            0u8,
            0u8,
        ]
    }
}

/// The number of characters or code units that the stored length counts.
pub open spec fn string_units(s: Seq<char>) -> nat {
    if text::all_ascii(s) {
        s.len() + 1
    } else {
        utf16::utf16_units(s).len() + 1
    }
}

/// A string's stored form, or the refusal of one that is too long.
pub open spec fn encoded_string(dialect: Dialect, s: Seq<char>) -> Result<Seq<u8>, Seq<char>> {
    if string_units(s) <= i32::MAX {
        Ok(string_bytes(s))
    } else {
        Err(long_name_text(dialect))
    }
}

/// The string at `p` and the position behind it.
#[verifier::opaque]
pub open spec fn string_at(dialect: Dialect, d: Seq<u8>, p: int) -> Result<
    (Seq<char>, int),
    Seq<char>,
> {
    match compact_at(dialect, d, p) {
        Err(e) => Err(e),
        Ok((n, q)) => if n == 0 {
            Ok((Seq::empty(), q))
        } else if n > 0 {
            match exact_end(dialect, d, q, n as int) {
                Err(e) => Err(e),
                Ok(end) => Ok((utf16::utf8_text(d.subrange(q, end - 1)), end)),
            }
        } else if n == i32::MIN {
            Err("String Unreal inválida."@)
        } else {
            match exact_end(dialect, d, q, -2 * n) {
                Err(e) => Err(e),
                Ok(end) => Ok((utf16::utf16_text(units_of_bytes(d.subrange(q, end - 2))), end)),
            }
        },
    }
}

proof fn ascii_text_round_trip(s: Seq<char>)
    requires
        text::all_ascii(s),
    ensures
        utf16::utf8_text(text::ascii_bytes(s)) == s,
{
    broadcast use vstd::utf8::group_utf8_lib;

    vstd::utf8::is_ascii_chars_encode_utf8(s);
    assert(text::ascii_bytes(s) =~= vstd::utf8::encode_utf8(s));
}

/// Every string short enough to be stored is read back from its stored form.
pub proof fn string_round_trip(dialect: Dialect, before: Seq<u8>, s: Seq<char>, after: Seq<u8>)
    requires
        string_units(s) <= i32::MAX,
        before.len() + string_bytes(s).len() <= usize::MAX,
    ensures
        string_at(dialect, before + string_bytes(s) + after, before.len() as int) == Ok::<
            (Seq<char>, int),
            Seq<char>,
        >((s, (before.len() + string_bytes(s).len()) as int)),
{
    reveal(string_at);
    reveal(string_bytes);
    let d = before + string_bytes(s) + after;
    let p = before.len() as int;
    if text::all_ascii(s) {
        let n = (s.len() + 1) as i32;
        let tail = text::ascii_bytes(s) + seq![0u8];
        assert(d =~= before + compact_bytes(n) + (tail + after));
        compact_round_trip(dialect, before, n, tail + after);
        let q = p + compact_bytes(n).len();
        assert(d.subrange(q, q + n - 1) =~= text::ascii_bytes(s));
        ascii_text_round_trip(s);
    } else {
        let units = utf16::utf16_units(s);
        let n = (-(units.len() + 1)) as i32;
        let tail = unit_bytes(units) + seq![0u8, 0u8];
        unit_bytes_round_trip(units);
        assert(d =~= before + compact_bytes(n) + (tail + after));
        compact_round_trip(dialect, before, n, tail + after);
        let q = p + compact_bytes(n).len();
        assert(d.subrange(q, q - 2 * n - 2) =~= unit_bytes(units));
        utf16::utf16_round_trip(s);
    }
}

/// Appends the stored form of `value`.
pub fn write_unreal_string(dialect: Dialect, output: &mut Vec<u8>, value: &str) -> (r: Result<
    (),
    String,
>)
    ensures
        match r {
            Ok(()) => encoded_string(dialect, value@) is Ok && final(output)@ == old(output)@
                + string_bytes(value@),
            Err(message) => encoded_string(dialect, value@) == Err::<Seq<u8>, Seq<char>>(message@)
                && final(output)@ == old(output)@,
        },
{
    reveal(string_bytes);
    let ghost start = output@;
    let chars = text::chars_of(value);
    if text::is_ascii_text(chars.as_slice()) {
        if chars.len() >= 0x7fff_ffff {
            return Err(long_name_message(dialect));
        }
        write_compact(output, (chars.len() + 1) as i32);
        text::append_ascii(output, chars.as_slice());
        output.push(0);
        assert(output@ =~= start + string_bytes(value@));
        return Ok(());
    }
    let units = utf16::encode_utf16(chars.as_slice());
    if units.len() >= 0x7fff_ffff {
        return Err(long_name_message(dialect));
    }
    write_compact(output, -((units.len() + 1) as i32));
    let ghost head = output@;
    let mut i: usize = 0;
    assert(units@.take(0) =~= Seq::<u16>::empty());
    assert(output@ =~= head + unit_bytes(units@.take(0)));
    while i < units.len()
        invariant
            i <= units@.len(),
            output@ == head + unit_bytes(units@.take(i as int)),
        decreases units.len() - i,
    {
        bytes::write_u16(output, units[i]);
        i = i + 1;
        proof {
            assert(units@.take(i as int).drop_last() =~= units@.take(i - 1));
            assert(output@ =~= head + unit_bytes(units@.take(i as int)));
        }
    }
    assert(units@.take(i as int) =~= units@);
    output.push(0);
    output.push(0);
    assert(output@ =~= start + string_bytes(value@));
    Ok(())
}

/// The head of a property: its type, the flag in the highest bit of its info
/// byte, the place of that byte, and where its value starts and how long it is.
#[derive(Debug, Clone, Copy)]
pub struct Tag {
    pub kind: u8,
    pub flag: bool,
    pub info: usize,
    pub start: usize,
    pub size: usize,
}

/// A property tag with unbounded positions.
pub struct TagModel {
    pub kind: u8,
    pub flag: bool,
    pub info: int,
    pub start: int,
    pub size: int,
}

impl View for Tag {
    type V = TagModel;

    open spec fn view(&self) -> TagModel {
        TagModel {
            kind: self.kind,
            flag: self.flag,
            info: self.info as int,
            start: self.start as int,
            size: self.size as int,
        }
    }
}

/// The property type whose value is the flag itself.
pub const TYPE_BOOL: u8 = 3;

pub open spec fn size_at(dialect: Dialect, d: Seq<u8>, p: int, size_type: int) -> Result<
    (int, int),
    Seq<char>,
> {
    if size_type == 0 {
        Ok((1, p))
    } else if size_type == 1 {
        Ok((2, p))
    } else if size_type == 2 {
        Ok((4, p))
    } else if size_type == 3 {
        Ok((12, p))
    } else if size_type == 4 {
        Ok((16, p))
    } else if size_type == 5 {
        match u8_at(dialect, d, p) {
            Ok((n, q)) => Ok((n as int, q)),
            Err(e) => Err(e),
        }
    } else if size_type == 6 {
        match u16_read(dialect, d, p) {
            Ok((n, q)) => Ok((n as int, q)),
            Err(e) => Err(e),
        }
    } else {
        match i32_read(dialect, d, p) {
            Ok((n, q)) => if n >= 0 {
                Ok((n as int, q))
            } else {
                Err(property_size_text(dialect))
            },
            Err(e) => Err(e),
        }
    }
}

/// The position behind an optional compact integer that only some tags carry.
pub open spec fn after_compact(dialect: Dialect, d: Seq<u8>, p: int, present: bool) -> Result<
    int,
    Seq<char>,
> {
    if present {
        match compact_at(dialect, d, p) {
            Ok((_, q)) => Ok(q),
            Err(e) => Err(e),
        }
    } else {
        Ok(p)
    }
}

/// The property tag behind a name index that ends at `p`.
#[verifier::opaque]
pub open spec fn tag_at(dialect: Dialect, d: Seq<u8>, p: int) -> Result<TagModel, Seq<char>> {
    match u8_at(dialect, d, p) {
        Err(e) => Err(e),
        Ok((info, q0)) => {
            let kind = (info % 16) as u8;
            let flag = info >= 128;
            match after_compact(dialect, d, q0, kind == 10) {
                Err(e) => Err(e),
                Ok(q1) => match size_at(dialect, d, q1, (info / 16 % 8) as int) {
                    Err(e) => Err(e),
                    Ok((size, q2)) => match after_compact(
                        dialect,
                        d,
                        q2,
                        flag && kind != TYPE_BOOL,
                    ) {
                        Err(e) => Err(e),
                        Ok(q3) => Ok(
                            TagModel {
                                kind,
                                flag,
                                info: p,
                                start: q3,
                                size,
                            },
                        ),
                    },
                },
            }
        },
    }
}

/// A tag takes at least one byte and ends inside the data.
pub proof fn tag_moves(dialect: Dialect, d: Seq<u8>, p: int)
    requires
        0 <= p,
    ensures
        tag_at(dialect, d, p) matches Ok(tag) ==> {
            &&& p < tag.start <= d.len()
            &&& 0 <= tag.size <= i32::MAX
            &&& tag.info == p
            &&& tag.kind < 16
        },
{
    reveal(tag_at);
    assert forall|q: int| q >= 0 implies (#[trigger] compact_at(dialect, d, q) matches Ok((_, e))
        ==> q < e <= d.len()) by {
        compact_moves(dialect, d, q);
    }
    if p >= 0 && p < d.len() {
        compact_moves(dialect, d, p + 1);
    }
}

/// The position after `n` strings from `p` on.
pub open spec fn after_strings(dialect: Dialect, d: Seq<u8>, p: int, n: nat) -> Result<
    int,
    Seq<char>,
>
    decreases n,
{
    if n == 0 {
        Ok(p)
    } else {
        match string_at(dialect, d, p) {
            Err(e) => Err(e),
            Ok((_, q)) => after_strings(dialect, d, q, (n - 1) as nat),
        }
    }
}

/// The position after `n` groups of a string, a count and that many strings.
pub open spec fn after_groups(dialect: Dialect, d: Seq<u8>, p: int, n: nat) -> Result<
    int,
    Seq<char>,
>
    decreases n,
{
    if n == 0 {
        Ok(p)
    } else {
        match string_at(dialect, d, p) {
            Err(e) => Err(e),
            Ok((_, q)) => match u8_at(dialect, d, q) {
                Err(e) => Err(e),
                Ok((extra, q1)) => match after_strings(dialect, d, q1, extra as nat) {
                    Err(e) => Err(e),
                    Ok(q2) => after_groups(dialect, d, q2, (n - 1) as nat),
                },
            },
        }
    }
}

/// The position after a fixed block, some strings and four closing bytes.
pub open spec fn after_block(dialect: Dialect, d: Seq<u8>, p: int, size: int) -> Result<
    int,
    Seq<char>,
> {
    match skip_end(dialect, d, p, size) {
        Err(e) => Err(e),
        Ok(q) => match after_strings(dialect, d, q, 17) {
            Err(e) => Err(e),
            Ok(q1) => skip_end(dialect, d, q1, 4),
        },
    }
}

/// The position after the variable metadata of later builds.
pub open spec fn after_metadata(dialect: Dialect, d: Seq<u8>, p: int, size: int) -> Result<
    int,
    Seq<char>,
> {
    match skip_end(dialect, d, p, size) {
        Err(e) => Err(e),
        Ok(q) => match compact_at(dialect, d, q) {
            Err(e) => Err(e),
            Ok((n, q1)) => if n < 0 {
                Err(count_text(dialect, "metadados"@))
            } else {
                match after_groups(dialect, d, q1, n as nat) {
                    Err(e) => Err(e),
                    Ok(q2) => match string_at(dialect, d, q2) {
                        Err(e) => Err(e),
                        Ok((_, q3)) => skip_end(dialect, d, q3, 4),
                    },
                }
            },
        },
    }
}

/// Where the mip maps start: behind the block that a build's licensee version
/// puts between the properties and the mip maps.
pub open spec fn after_extra(
    dialect: Dialect,
    d: Seq<u8>,
    p: int,
    version: i32,
    licensee: i32,
) -> Result<int, Seq<char>> {
    if licensee <= 10 {
        Ok(p)
    } else if licensee <= 28 {
        skip_end(dialect, d, p, 4)
    } else if licensee <= 32 {
        Ok(p)
    } else if licensee <= 35 {
        after_block(dialect, d, p, 1067)
    } else if licensee == 36 {
        after_block(dialect, d, p, 1058)
    } else if licensee <= 39 && version != 129 {
        after_metadata(dialect, d, p, 36)
    } else {
        after_metadata(dialect, d, p, 92)
    }
}

/// A cursor over bytes that never leaves them.
pub struct Reader<'a> {
    pub data: &'a [u8],
    pub position: usize,
    pub dialect: Dialect,
}

/// What a step of the reader gives back: the value and the new position that
/// the model gives, or the model's message.
pub open spec fn stepped<T>(
    before: Reader,
    after: Reader,
    r: Result<T, String>,
    model: Result<(T, int), Seq<char>>,
) -> bool {
    &&& moved(before, after)
    &&& match r {
        Ok(value) => model == Ok::<(T, int), Seq<char>>((value, after.position as int)),
        Err(message) => model == Err::<(T, int), Seq<char>>(message@),
    }
}

/// As `stepped`, for a step without a value.
pub open spec fn passed(
    before: Reader,
    after: Reader,
    r: Result<(), String>,
    model: Result<int, Seq<char>>,
) -> bool {
    &&& moved(before, after)
    &&& match r {
        Ok(()) => model == Ok::<int, Seq<char>>(after.position as int),
        Err(message) => model == Err::<int, Seq<char>>(message@),
    }
}

/// Only the position of a reader changes.
pub open spec fn moved(before: Reader, after: Reader) -> bool {
    &&& after.wf()
    &&& after.data@ == before.data@
    &&& after.dialect == before.dialect
}

impl<'a> Reader<'a> {
    pub open spec fn wf(&self) -> bool {
        self.position <= self.data@.len()
    }

    pub fn new(data: &'a [u8], dialect: Dialect) -> (r: Self)
        ensures
            r.wf(),
            r.data@ == data@,
            r.position == 0,
            r.dialect == dialect,
    {
        Reader { data, position: 0, dialect }
    }

    pub fn seek(&mut self, position: usize) -> (r: Result<(), String>)
        requires
            old(self).wf(),
        ensures
            passed(
                *old(self),
                *final(self),
                r,
                if position <= old(self).data@.len() {
                    Ok(position as int)
                } else {
                    Err(outside_text(old(self).dialect))
                },
            ),
    {
        if position > self.data.len() {
            return Err(outside_message(self.dialect));
        }
        self.position = position;
        Ok(())
    }

    pub fn skip(&mut self, size: usize) -> (r: Result<(), String>)
        requires
            old(self).wf(),
        ensures
            passed(
                *old(self),
                *final(self),
                r,
                skip_end(
                    old(self).dialect,
                    old(self).data@,
                    old(self).position as int,
                    size as int,
                ),
            ),
    {
        match self.position.checked_add(size) {
            Some(position) => self.seek(position),
            None => Err(offset_message(self.dialect)),
        }
    }

    pub fn read_u8(&mut self) -> (r: Result<u8, String>)
        requires
            old(self).wf(),
        ensures
            stepped(
                *old(self),
                *final(self),
                r,
                u8_at(old(self).dialect, old(self).data@, old(self).position as int),
            ),
    {
        if self.position >= self.data.len() {
            return Err(truncated_message(self.dialect));
        }
        let value: u8 = self.data[self.position];
        self.position = self.position + 1;
        Ok(value)
    }

    pub fn read_exact(&mut self, size: usize) -> (r: Result<&'a [u8], String>)
        requires
            old(self).wf(),
        ensures
            moved(*old(self), *final(self)),
            match r {
                Ok(bytes) => {
                    &&& exact_end(
                        old(self).dialect,
                        old(self).data@,
                        old(self).position as int,
                        size as int,
                    ) == Ok::<int, Seq<char>>(final(self).position as int)
                    &&& bytes@ == old(self).data@.subrange(
                        old(self).position as int,
                        final(self).position as int,
                    )
                },
                Err(message) => exact_end(
                    old(self).dialect,
                    old(self).data@,
                    old(self).position as int,
                    size as int,
                ) == Err::<int, Seq<char>>(message@),
            },
    {
        let end: usize = match self.position.checked_add(size) {
            Some(end) => end,
            None => return Err(offset_message(self.dialect)),
        };
        if end > self.data.len() {
            return Err(truncated_message(self.dialect));
        }
        let bytes = slice_subrange(self.data, self.position, end);
        self.position = end;
        Ok(bytes)
    }

    pub fn read_u16(&mut self) -> (r: Result<u16, String>)
        requires
            old(self).wf(),
        ensures
            stepped(
                *old(self),
                *final(self),
                r,
                u16_read(old(self).dialect, old(self).data@, old(self).position as int),
            ),
    {
        let bytes = self.read_exact(2)?;
        assert(bytes@.subrange(0, 2) =~= bytes@);
        Ok(bytes::u16_at(bytes, 0))
    }

    pub fn read_i16(&mut self) -> (r: Result<i16, String>)
        requires
            old(self).wf(),
        ensures
            stepped(
                *old(self),
                *final(self),
                r,
                i16_read(old(self).dialect, old(self).data@, old(self).position as int),
            ),
    {
        let bytes = self.read_exact(2)?;
        assert(bytes@.subrange(0, 2) =~= bytes@);
        Ok(bytes::i16_at(bytes, 0))
    }

    pub fn read_i32(&mut self) -> (r: Result<i32, String>)
        requires
            old(self).wf(),
        ensures
            stepped(
                *old(self),
                *final(self),
                r,
                i32_read(old(self).dialect, old(self).data@, old(self).position as int),
            ),
    {
        let bytes = self.read_exact(4)?;
        assert(bytes@.subrange(0, 4) =~= bytes@);
        Ok(bytes::i32_at(bytes, 0))
    }

    pub fn read_compact(&mut self) -> (r: Result<i32, String>)
        requires
            old(self).wf(),
        ensures
            stepped(
                *old(self),
                *final(self),
                r,
                compact_at(old(self).dialect, old(self).data@, old(self).position as int),
            ),
            r is Ok ==> old(self).position < final(self).position,
    {
        reveal(compact_at);
        let first: u8 = self.read_u8()?;
        let negative = first >= 128;
        let mut output: u32 = (first % 64) as u32;
        if (first / 64) % 2 == 1 {
            let second: u8 = self.read_u8()?;
            output = output + 64 * ((second % 128) as u32);
            if second >= 128 {
                let third: u8 = self.read_u8()?;
                output = output + 8192 * ((third % 128) as u32);
                if third >= 128 {
                    let fourth: u8 = self.read_u8()?;
                    output = output + 1048576 * ((fourth % 128) as u32);
                    if fourth >= 128 {
                        let fifth: u8 = self.read_u8()?;
                        output = output + 134217728 * ((fifth % 32) as u32);
                    }
                }
            }
        }
        if negative {
            if output == 0 {
                Ok(i32::MIN)
            } else if output <= 0x8000_0000 {
                Ok((-(output as i64)) as i32)
            } else {
                Ok((0x1_0000_0000 - output as i64) as i32)
            }
        } else if output > 0x7fff_ffff {
            Err(compact_message(self.dialect))
        } else {
            Ok(output as i32)
        }
    }

    pub fn read_unreal_string(&mut self) -> (r: Result<String, String>)
        requires
            old(self).wf(),
        ensures
            moved(*old(self), *final(self)),
            match r {
                Ok(value) => string_at(
                    old(self).dialect,
                    old(self).data@,
                    old(self).position as int,
                ) == Ok::<(Seq<char>, int), Seq<char>>((value@, final(self).position as int)),
                Err(message) => string_at(
                    old(self).dialect,
                    old(self).data@,
                    old(self).position as int,
                ) == Err::<(Seq<char>, int), Seq<char>>(message@),
            },
    {
        reveal(string_at);
        let length: i32 = self.read_compact()?;
        if length == 0 {
            return Ok(String::new());
        }
        let start: usize = self.position;
        if length > 0 {
            let bytes = self.read_exact(length as usize)?;
            proof {
                assert(bytes@.subrange(0, length - 1) =~= self.data@.subrange(
                    start as int,
                    start + length - 1,
                ));
            }
            return Ok(utf16::text_of_utf8(slice_subrange(bytes, 0, length as usize - 1)));
        }
        if length == i32::MIN {
            return Err("String Unreal inválida.".to_owned());
        }
        let size: usize = (-(length as i64)) as usize * 2;
        let bytes = self.read_exact(size)?;
        let mut units: Vec<u16> = Vec::new();
        let mut i: usize = 0;
        let count: usize = size / 2 - 1;
        let ghost body = self.data@.subrange(start as int, start + size - 2);
        while i < count
            invariant
                size == 2 * (count + 1),
                bytes@.len() == size,
                i <= count,
                body =~= bytes@.subrange(0, size - 2),
                units@ == units_of_bytes(body).take(i as int),
            decreases count - i,
        {
            units.push(bytes::u16_at(bytes, 2 * i));
            i = i + 1;
            proof {
                assert(bytes@.subrange(2 * (i - 1), 2 * (i - 1) + 2) =~= body.subrange(
                    2 * (i - 1),
                    2 * (i - 1) + 2,
                ));
                assert(units@ =~= units_of_bytes(body).take(i as int));
            }
        }
        assert(units@ =~= units_of_bytes(body));
        Ok(utf16::decode_utf16_lossy(units.as_slice()))
    }

    /// Reads the tag that follows a property's name index.
    pub fn read_tag(&mut self) -> (r: Result<Tag, String>)
        requires
            old(self).wf(),
        ensures
            moved(*old(self), *final(self)),
            match r {
                Ok(tag) => {
                    &&& tag_at(old(self).dialect, old(self).data@, old(self).position as int)
                        == Ok::<TagModel, Seq<char>>(tag@)
                    &&& tag.start == final(self).position
                    &&& old(self).position < final(self).position
                },
                Err(message) => tag_at(
                    old(self).dialect,
                    old(self).data@,
                    old(self).position as int,
                ) == Err::<TagModel, Seq<char>>(message@),
            },
    {
        reveal(tag_at);
        let at: usize = self.position;
        let info: u8 = self.read_u8()?;
        let kind: u8 = info % 16;
        let flag = info >= 128;
        if kind == 10 {
            self.read_compact()?;
        }
        let size: usize = self.property_size(info / 16 % 8)?;
        if flag && kind != TYPE_BOOL {
            self.read_compact()?;
        }
        Ok(Tag { kind, flag, info: at, start: self.position, size })
    }

    pub fn property_size(&mut self, size_type: u8) -> (r: Result<usize, String>)
        requires
            old(self).wf(),
            size_type < 8,
        ensures
            moved(*old(self), *final(self)),
            r is Ok ==> old(self).position <= final(self).position,
            match r {
                Ok(size) => size_at(
                    old(self).dialect,
                    old(self).data@,
                    old(self).position as int,
                    size_type as int,
                ) == Ok::<(int, int), Seq<char>>((size as int, final(self).position as int)),
                Err(message) => size_at(
                    old(self).dialect,
                    old(self).data@,
                    old(self).position as int,
                    size_type as int,
                ) == Err::<(int, int), Seq<char>>(message@),
            },
    {
        match size_type {
            0 => Ok(1),
            1 => Ok(2),
            2 => Ok(4),
            3 => Ok(12),
            4 => Ok(16),
            5 => {
                let size: u8 = self.read_u8()?;
                Ok(size as usize)
            },
            6 => {
                let size: u16 = self.read_u16()?;
                Ok(size as usize)
            },
            _ => {
                let size: i32 = self.read_i32()?;
                if size < 0 {
                    return Err(property_size_message(self.dialect));
                }
                Ok(size as usize)
            },
        }
    }

    fn skip_strings(&mut self, count: usize) -> (r: Result<(), String>)
        requires
            old(self).wf(),
        ensures
            passed(
                *old(self),
                *final(self),
                r,
                after_strings(
                    old(self).dialect,
                    old(self).data@,
                    old(self).position as int,
                    count as nat,
                ),
            ),
    {
        let mut i: usize = 0;
        while i < count
            invariant
                moved(*old(self), *self),
                i <= count,
                after_strings(old(self).dialect, old(self).data@, old(self).position as int, count as nat)
                    == after_strings(
                    self.dialect,
                    self.data@,
                    self.position as int,
                    (count - i) as nat,
                ),
            decreases count - i,
        {
            self.read_unreal_string()?;
            i = i + 1;
        }
        Ok(())
    }

    fn skip_groups(&mut self, count: usize) -> (r: Result<(), String>)
        requires
            old(self).wf(),
        ensures
            passed(
                *old(self),
                *final(self),
                r,
                after_groups(
                    old(self).dialect,
                    old(self).data@,
                    old(self).position as int,
                    count as nat,
                ),
            ),
    {
        let mut i: usize = 0;
        while i < count
            invariant
                moved(*old(self), *self),
                i <= count,
                after_groups(old(self).dialect, old(self).data@, old(self).position as int, count as nat)
                    == after_groups(
                    self.dialect,
                    self.data@,
                    self.position as int,
                    (count - i) as nat,
                ),
            decreases count - i,
        {
            self.read_unreal_string()?;
            let extra: u8 = self.read_u8()?;
            self.skip_strings(extra as usize)?;
            i = i + 1;
        }
        Ok(())
    }

    fn skip_block(&mut self, size: usize) -> (r: Result<(), String>)
        requires
            old(self).wf(),
        ensures
            passed(
                *old(self),
                *final(self),
                r,
                after_block(
                    old(self).dialect,
                    old(self).data@,
                    old(self).position as int,
                    size as int,
                ),
            ),
    {
        self.skip(size)?;
        self.skip_strings(17)?;
        self.skip(4)
    }

    fn skip_metadata(&mut self, size: usize) -> (r: Result<(), String>)
        requires
            old(self).wf(),
        ensures
            passed(
                *old(self),
                *final(self),
                r,
                after_metadata(
                    old(self).dialect,
                    old(self).data@,
                    old(self).position as int,
                    size as int,
                ),
            ),
    {
        self.skip(size)?;
        let stored: i32 = self.read_compact()?;
        let count: usize = read_count(self.dialect, stored, "metadados")?;
        self.skip_groups(count)?;
        self.read_unreal_string()?;
        self.skip(4)
    }

    /// Moves from the end of the properties to the mip maps.
    pub fn skip_unreal_extra(&mut self, version: i32, licensee: i32) -> (r: Result<(), String>)
        requires
            old(self).wf(),
        ensures
            passed(
                *old(self),
                *final(self),
                r,
                after_extra(
                    old(self).dialect,
                    old(self).data@,
                    old(self).position as int,
                    version,
                    licensee,
                ),
            ),
    {
        if licensee <= 10 {
            return Ok(());
        }
        if licensee <= 28 {
            return self.skip(4);
        }
        if licensee <= 32 {
            return Ok(());
        }
        if licensee <= 35 {
            return self.skip_block(1067);
        }
        if licensee == 36 {
            return self.skip_block(1058);
        }
        if licensee <= 39 && version != 129 {
            self.skip_metadata(36)
        } else {
            self.skip_metadata(92)
        }
    }
}

} // verus!
