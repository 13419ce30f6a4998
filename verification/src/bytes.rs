//! Little-endian integers and byte patches.

use vstd::prelude::*;
use vstd::slice::slice_subrange;
use crate::text;

verus! {

pub open spec fn le16(v: u16) -> Seq<u8> {
    seq![(v % 256) as u8, (v / 256) as u8]
}

pub open spec fn u16_of(s: Seq<u8>) -> u16 {
    (s[0] + 256 * s[1]) as u16
}

pub open spec fn le32(v: u32) -> Seq<u8> {
    seq![
        (v % 256) as u8,
        (v / 256 % 256) as u8,
        (v / 65536 % 256) as u8,
        (v / 16777216) as u8,
    ]
}

pub open spec fn u32_of(s: Seq<u8>) -> u32 {
    (s[0] + 256 * s[1] + 65536 * s[2] + 16777216 * s[3]) as u32
}

/// The two's complement bit pattern of a 32-bit integer.
pub open spec fn bits_of(v: i32) -> u32 {
    if v >= 0 {
        v as u32
    } else {
        (v + 0x1_0000_0000) as u32
    }
}

pub open spec fn i32_of_bits(v: u32) -> i32 {
    if v < 0x8000_0000 {
        v as i32
    } else {
        (v - 0x1_0000_0000) as i32
    }
}

pub open spec fn i32_bytes(v: i32) -> Seq<u8> {
    le32(bits_of(v))
}

pub open spec fn i32_of(s: Seq<u8>) -> i32 {
    i32_of_bits(u32_of(s))
}

/// The two's complement bit pattern of a 16-bit integer.
pub open spec fn bits16_of(v: i16) -> u16 {
    if v >= 0 {
        v as u16
    } else {
        (v + 0x1_0000) as u16
    }
}

pub open spec fn i16_of_bits(v: u16) -> i16 {
    if v < 0x8000 {
        v as i16
    } else {
        (v - 0x1_0000) as i16
    }
}

pub open spec fn i16_bytes(v: i16) -> Seq<u8> {
    le16(bits16_of(v))
}

pub open spec fn i16_of(s: Seq<u8>) -> i16 {
    i16_of_bits(u16_of(s))
}

/// `data` with the bytes from `at` on replaced by `patch`.
pub open spec fn splice(data: Seq<u8>, at: int, patch: Seq<u8>) -> Seq<u8> {
    data.subrange(0, at) + patch + data.subrange(at + patch.len(), data.len() as int)
}

/// Reading back a written integer gives that integer.
pub proof fn integers_round_trip(a: i16, b: i32, c: u16, d: u32)
    ensures
        u16_of(le16(c)) == c,
        u32_of(le32(d)) == d,
        i16_of(i16_bytes(a)) == a,
        i32_of(i32_bytes(b)) == b,
        i32_bytes(b).len() == 4,
{
}

/// Any four bytes are the little-endian form of the integer they hold.
pub proof fn integer_bytes_are_unique(s: Seq<u8>)
    requires
        s.len() == 4,
    ensures
        i32_bytes(i32_of(s)) == s,
{
    let (a, b, c, d) = (s[0] as int, s[1] as int, s[2] as int, s[3] as int);
    let v = a + 256 * b + 65536 * c + 16777216 * d;
    assert(bits_of(i32_of(s)) == v);
    assert(v % 256 == a && v / 256 == b + 256 * c + 65536 * d);
    assert(v / 65536 == c + 256 * d);
    assert(v / 16777216 == d);
    assert(i32_bytes(i32_of(s)) =~= s);
}

pub fn i32_bits(v: i32) -> (r: u32)
    ensures
        r == bits_of(v),
{
    if v >= 0 {
        v as u32
    } else {
        (v as i64 + 0x1_0000_0000) as u32
    }
}

pub fn i32_from_bits(v: u32) -> (r: i32)
    ensures
        r == i32_of_bits(v),
{
    if v < 0x8000_0000 {
        v as i32
    } else {
        (v as i64 - 0x1_0000_0000) as i32
    }
}

pub fn u16_at(data: &[u8], at: usize) -> (r: u16)
    requires
        at + 2 <= data@.len(),
    ensures
        r == u16_of(data@.subrange(at as int, at + 2)),
{
    data[at] as u16 + 256 * (data[at + 1] as u16)
}

pub fn u32_at(data: &[u8], at: usize) -> (r: u32)
    requires
        at + 4 <= data@.len(),
    ensures
        r == u32_of(data@.subrange(at as int, at + 4)),
{
    data[at] as u32 + 256 * (data[at + 1] as u32) + 65536 * (data[at + 2] as u32) + 16777216 * (
    data[at + 3] as u32)
}

pub fn i16_at(data: &[u8], at: usize) -> (r: i16)
    requires
        at + 2 <= data@.len(),
    ensures
        r == i16_of(data@.subrange(at as int, at + 2)),
{
    let bits: u16 = u16_at(data, at);
    if bits < 0x8000 {
        bits as i16
    } else {
        (bits as i32 - 0x1_0000) as i16
    }
}

pub fn i32_at(data: &[u8], at: usize) -> (r: i32)
    requires
        at + 4 <= data@.len(),
    ensures
        r == i32_of(data@.subrange(at as int, at + 4)),
{
    i32_from_bits(u32_at(data, at))
}

pub fn append(output: &mut Vec<u8>, more: &[u8])
    ensures
        final(output)@ == old(output)@ + more@,
{
    let ghost before = output@;
    output.extend_from_slice(more);
    assert(output@ =~= before + more@);
}

pub fn write_u16(output: &mut Vec<u8>, value: u16)
    ensures
        final(output)@ == old(output)@ + le16(value),
{
    let ghost before = output@;
    output.push((value % 256) as u8);
    output.push((value / 256) as u8);
    assert(output@ =~= before + le16(value));
}

pub fn write_u32(output: &mut Vec<u8>, value: u32)
    ensures
        final(output)@ == old(output)@ + le32(value),
{
    let ghost before = output@;
    output.push((value % 256) as u8);
    output.push((value / 256 % 256) as u8);
    output.push((value / 65536 % 256) as u8);
    output.push((value / 16777216) as u8);
    assert(output@ =~= before + le32(value));
}

pub fn write_i16(output: &mut Vec<u8>, value: i16)
    ensures
        final(output)@ == old(output)@ + i16_bytes(value),
{
    let bits: u16 = if value >= 0 {
        value as u16
    } else {
        (value as i32 + 0x1_0000) as u16
    };
    write_u16(output, bits);
}

pub fn write_i32(output: &mut Vec<u8>, value: i32)
    ensures
        final(output)@ == old(output)@ + i32_bytes(value),
{
    write_u32(output, i32_bits(value));
}

/// Overwrites `patch.len()` bytes of `data` from `at` on.
pub fn overwrite(data: &mut Vec<u8>, at: usize, patch: &[u8])
    requires
        at + patch@.len() <= old(data)@.len(),
    ensures
        final(data)@ == splice(old(data)@, at as int, patch@),
{
    let ghost before = data@;
    let total: usize = data.len();
    let mut i: usize = 0;
    while i < patch.len()
        invariant
            at + patch@.len() <= before.len(),
            before.len() == total,
            i <= patch@.len(),
            data@.len() == before.len(),
            forall|k: int|
                0 <= k < before.len() ==> #[trigger] data@[k] == if at <= k < at + i {
                    patch@[k - at]
                } else {
                    before[k]
                },
        decreases patch.len() - i,
    {
        data[at + i] = patch[i];
        i = i + 1;
    }
    assert(data@ =~= splice(before, at as int, patch@));
}

/// What `write_i32_at` leaves behind, or the message it fails with.
pub open spec fn with_i32_at(data: Seq<u8>, position: int, value: i32) -> Result<
    Seq<u8>,
    Seq<char>,
> {
    if position + 4 > usize::MAX {
        Err("Offset inválido."@)
    } else if position + 4 > data.len() {
        Err("Cabeçalho do pacote truncado."@)
    } else {
        Ok(splice(data, position, i32_bytes(value)))
    }
}

/// Stores a little-endian integer at `position`; a failed call changes nothing.
pub fn write_i32_at(data: &mut Vec<u8>, position: usize, value: i32) -> (r: Result<(), String>)
    ensures
        match r {
            Ok(()) => with_i32_at(old(data)@, position as int, value) == Ok::<Seq<u8>, Seq<char>>(
                final(data)@,
            ),
            Err(message) => {
                &&& with_i32_at(old(data)@, position as int, value) == Err::<Seq<u8>, Seq<char>>(
                    message@,
                )
                &&& final(data)@ == old(data)@
            },
        },
{
    let end: usize = match position.checked_add(4) {
        Some(end) => end,
        None => return Err("Offset inválido.".to_owned()),
    };
    if end > data.len() {
        return Err("Cabeçalho do pacote truncado.".to_owned());
    }
    let mut patch: Vec<u8> = Vec::new();
    write_i32(&mut patch, value);
    assert(patch@ =~= i32_bytes(value));
    overwrite(data, position, patch.as_slice());
    Ok(())
}

/// The bytes of `data` between two offsets.
pub fn copy_range(data: &[u8], from: usize, to: usize) -> (r: Vec<u8>)
    requires
        from <= to <= data@.len(),
    ensures
        r@ == data@.subrange(from as int, to as int),
{
    let mut out: Vec<u8> = Vec::new();
    append(&mut out, slice_subrange(data, from, to));
    assert(out@ =~= data@.subrange(from as int, to as int));
    out
}

/// A copy of some bytes.
pub fn copy_bytes(data: &[u8]) -> (r: Vec<u8>)
    ensures
        r@ == data@,
{
    let mut out: Vec<u8> = Vec::new();
    append(&mut out, data);
    assert(out@ =~= data@);
    out
}

pub open spec fn i32_of_len(value: int, message: Seq<char>) -> Result<i32, Seq<char>> {
    if value <= i32::MAX {
        Ok(value as i32)
    } else {
        Err(message)
    }
}

/// The length as a 32-bit integer, or `message` where it does not fit.
pub fn checked_i32(value: usize, message: &str) -> (r: Result<i32, String>)
    ensures
        text::seen(r) == i32_of_len(value as int, message@),
{
    if value <= 0x7fff_ffff {
        Ok(value as i32)
    } else {
        Err(message.to_owned())
    }
}

} // verus!
