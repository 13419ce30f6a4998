//! TGA and DDS files: what they hold, and how pixels are put into them.

use vstd::prelude::*;
use vstd::arithmetic::mul::*;
use vstd::slice::slice_subrange;
use crate::formats::UtxFormat;
use crate::bytes;
use crate::edits;
use crate::formats;
use crate::text;

verus! {

/// The dimensions in the header of a TGA file.
pub open spec fn tga_size(d: Seq<u8>) -> Result<(i32, i32), Seq<char>> {
    if d.len() < 18 {
        Err("Arquivo TGA inválido ou corrompido."@)
    } else {
        let width = bytes::u16_of(d.subrange(12, 14));
        let height = bytes::u16_of(d.subrange(14, 16));
        if width == 0 || height == 0 {
            Err("O TGA não possui dimensões válidas."@)
        } else {
            Ok((width as i32, height as i32))
        }
    }
}

/// Where the pixels of a TGA file start: behind its header, its identifier and
/// its color map.
pub open spec fn tga_start(d: Seq<u8>) -> Result<int, Seq<char>> {
    if d.len() < 18 {
        Err("Arquivo TGA inválido ou corrompido."@)
    } else {
        let colors = if d[1] == 1 {
            bytes::u16_of(d.subrange(5, 7)) * ((d[7] + 7) / 8)
        } else {
            0
        };
        if 18 + d[0] + colors > d.len() {
            Err("Offset de pixels TGA inválido."@)
        } else {
            Ok(18 + d[0] + colors)
        }
    }
}

/// The length of `count` stored pixels of three or four bytes each.
pub open spec fn stored_len(wide: bool, count: int) -> int {
    if wide {
        4 * count
    } else {
        3 * count
    }
}

/// One byte of a pixel that is stored at `p`; a pixel without alpha is opaque.
pub open spec fn pixel_byte(d: Seq<u8>, p: int, wide: bool, channel: int) -> u8 {
    if channel < 3 || wide {
        d[p + channel]
    } else {
        255
    }
}

/// `count` pixels that are stored one after the other from `p` on.
pub open spec fn stored_pixels(d: Seq<u8>, p: int, wide: bool, count: int) -> Seq<u8> {
    Seq::new(
        (4 * count) as nat,
        |i: int| pixel_byte(d, p + stored_len(wide, i / 4), wide, i % 4),
    )
}

/// `count` times the pixel that is stored at `p`.
pub open spec fn repeated_pixel(d: Seq<u8>, p: int, wide: bool, count: int) -> Seq<u8> {
    Seq::new((4 * count) as nat, |i: int| pixel_byte(d, p, wide, i % 4))
}

/// The pixels of run-length packets from `p` on, behind those already found,
/// with `left` pixels still to come.
pub open spec fn packed_pixels(d: Seq<u8>, p: int, wide: bool, left: int, done: Seq<u8>) -> Result<
    Seq<u8>,
    Seq<char>,
>
    decreases left,
{
    if left <= 0 {
        Ok(done)
    } else if p < 0 || p >= d.len() {
        Err("Dados RLE TGA truncados."@)
    } else {
        let count = d[p] % 128 + 1;
        if count > left {
            Err("Pacote RLE TGA excede o tamanho esperado."@)
        } else if d[p] >= 128 {
            if p + 1 + stored_len(wide, 1) > d.len() {
                Err("Dados RLE TGA truncados."@)
            } else {
                packed_pixels(
                    d,
                    p + 1 + stored_len(wide, 1),
                    wide,
                    left - count,
                    done + repeated_pixel(d, p + 1, wide, count),
                )
            }
        } else {
            if p + 1 + stored_len(wide, count) > d.len() {
                Err("Dados RLE TGA truncados."@)
            } else {
                packed_pixels(
                    d,
                    p + 1 + stored_len(wide, count),
                    wide,
                    left - count,
                    done + stored_pixels(d, p + 1, wide, count),
                )
            }
        }
    }
}

/// The dimensions and the pixels of a TGA file, four bytes per pixel.
pub open spec fn tga_content(d: Seq<u8>) -> Result<(i32, i32, Seq<u8>), Seq<char>> {
    if d.len() < 18 {
        Err("Arquivo TGA inválido ou corrompido."@)
    } else if d[1] != 0 || (d[2] != 2 && d[2] != 10) || (d[16] != 24 && d[16] != 32) {
        Err("O RGBA8 requer um TGA true-color de 24 ou 32 bits, sem paleta."@)
    } else {
        match tga_size(d) {
            Err(e) => Err(e),
            Ok((width, height)) => if width * height > usize::MAX {
                Err("Textura TGA muito grande."@)
            } else {
                match tga_start(d) {
                    Err(e) => Err(e),
                    Ok(start) => if width * height * 4 > usize::MAX {
                        Err("Textura TGA muito grande."@)
                    } else if d[2] == 2 {
                        if start + stored_len(d[16] == 32, width * height) > d.len() {
                            Err("Dados de pixels TGA truncados."@)
                        } else {
                            Ok(
                                (
                                    width,
                                    height,
                                    stored_pixels(d, start, d[16] == 32, width * height),
                                ),
                            )
                        }
                    } else {
                        match packed_pixels(
                            d,
                            start,
                            d[16] == 32,
                            width * height,
                            Seq::empty(),
                        ) {
                            Err(e) => Err(e),
                            Ok(pixels) => Ok((width, height, pixels)),
                        }
                    },
                }
            },
        }
    }
}

pub fn tga_dimensions(data: &[u8]) -> (r: Result<(i32, i32), String>)
    ensures
        text::seen(r) == tga_size(data@),
{
    if data.len() < 18 {
        return Err("Arquivo TGA inválido ou corrompido.".to_owned());
    }
    let width: u16 = bytes::u16_at(data, 12);
    let height: u16 = bytes::u16_at(data, 14);
    if width == 0 || height == 0 {
        return Err("O TGA não possui dimensões válidas.".to_owned());
    }
    Ok((width as i32, height as i32))
}

pub fn tga_pixel_start(data: &[u8]) -> (r: Result<usize, String>)
    ensures
        match r {
            Ok(start) => tga_start(data@) == Ok::<int, Seq<char>>(start as int),
            Err(message) => tga_start(data@) == Err::<int, Seq<char>>(message@),
        },
{
    if data.len() < 18 {
        return Err("Arquivo TGA inválido ou corrompido.".to_owned());
    }
    let mut start: usize = 18 + data[0] as usize;
    if data[1] == 1 {
        let colors: u16 = bytes::u16_at(data, 5);
        let width: usize = (data[7] as usize + 7) / 8;
        assert(0 <= colors * width <= 65535 * 32) by (nonlinear_arith)
            requires
                0 <= colors <= 65535,
                0 <= width <= 32,
        ;
        start = start + colors as usize * width;
    }
    if start > data.len() {
        return Err("Offset de pixels TGA inválido.".to_owned());
    }
    Ok(start)
}

/// Appends `count` stored pixels.
fn append_stored(output: &mut Vec<u8>, data: &[u8], p: usize, wide: bool, count: usize)
    requires
        p + stored_len(wide, count as int) <= data@.len(),
    ensures
        final(output)@ == old(output)@ + stored_pixels(data@, p as int, wide, count as int),
{
    let mut at: usize = p;
    let mut k: usize = 0;
    assert(output@ =~= old(output)@ + stored_pixels(data@, p as int, wide, 0));
    while k < count
        invariant
            k <= count,
            p + stored_len(wide, count as int) <= data@.len(),
            at == p + stored_len(wide, k as int),
            output@ == old(output)@ + stored_pixels(data@, p as int, wide, k as int),
        decreases count - k,
    {
        let available: usize = data.len();
        output.push(data[at]);
        output.push(data[at + 1]);
        output.push(data[at + 2]);
        if wide {
            output.push(data[at + 3]);
            at = at + 4;
        } else {
            output.push(255);
            at = at + 3;
        }
        k = k + 1;
        assert(output@ =~= old(output)@ + stored_pixels(data@, p as int, wide, k as int));
    }
}

/// Appends the pixel stored at `p` `count` times.
fn append_repeated(output: &mut Vec<u8>, data: &[u8], p: usize, wide: bool, count: usize)
    requires
        p + stored_len(wide, 1) <= data@.len(),
    ensures
        final(output)@ == old(output)@ + repeated_pixel(data@, p as int, wide, count as int),
{
    let available: usize = data.len();
    let alpha: u8 = if wide {
        data[p + 3]
    } else {
        255
    };
    let mut k: usize = 0;
    assert(output@ =~= old(output)@ + repeated_pixel(data@, p as int, wide, 0));
    while k < count
        invariant
            k <= count,
            available == data@.len(),
            p + stored_len(wide, 1) <= data@.len(),
            alpha == pixel_byte(data@, p as int, wide, 3),
            output@ == old(output)@ + repeated_pixel(data@, p as int, wide, k as int),
        decreases count - k,
    {
        output.push(data[p]);
        output.push(data[p + 1]);
        output.push(data[p + 2]);
        output.push(alpha);
        k = k + 1;
        assert(output@ =~= old(output)@ + repeated_pixel(data@, p as int, wide, k as int));
    }
}

/// Unpacks the pixels of run-length packets.
fn unpack_pixels(data: &[u8], start: usize, wide: bool, count: usize) -> (r: Result<
    Vec<u8>,
    String,
>)
    requires
        start <= data@.len(),
    ensures
        match r {
            Ok(pixels) => packed_pixels(
                data@,
                start as int,
                wide,
                count as int,
                Seq::empty(),
            ) == Ok::<Seq<u8>, Seq<char>>(pixels@),
            Err(message) => packed_pixels(
                data@,
                start as int,
                wide,
                count as int,
                Seq::empty(),
            ) == Err::<Seq<u8>, Seq<char>>(message@),
        },
{
    let mut pixels: Vec<u8> = Vec::new();
    let mut input: usize = start;
    let mut left: usize = count;
    let available: usize = data.len();
    while left > 0
        invariant
            input <= available,
            available == data@.len(),
            packed_pixels(data@, start as int, wide, count as int, Seq::empty()) == packed_pixels(
                data@,
                input as int,
                wide,
                left as int,
                pixels@,
            ),
        decreases left,
    {
        if input >= available {
            return Err("Dados RLE TGA truncados.".to_owned());
        }
        let header: u8 = data[input];
        input = input + 1;
        let run: usize = header as usize % 128 + 1;
        if run > left {
            return Err("Pacote RLE TGA excede o tamanho esperado.".to_owned());
        }
        let stored: usize = if header >= 128 {
            1
        } else {
            run
        };
        let bytes: usize = if wide {
            4 * stored
        } else {
            3 * stored
        };
        if bytes > available - input {
            return Err("Dados RLE TGA truncados.".to_owned());
        }
        if header >= 128 {
            append_repeated(&mut pixels, data, input, wide, run);
        } else {
            append_stored(&mut pixels, data, input, wide, run);
        }
        input = input + bytes;
        left = left - run;
    }
    Ok(pixels)
}

/// The content of a TGA file, as it is handed to callers.
pub open spec fn tga_result(
    r: Result<(i32, i32, Vec<u8>), String>,
    model: Result<(i32, i32, Seq<u8>), Seq<char>>,
) -> bool {
    match r {
        Ok((width, height, pixels)) => model == Ok::<(i32, i32, Seq<u8>), Seq<char>>(
            (width, height, pixels@),
        ),
        Err(message) => model == Err::<(i32, i32, Seq<u8>), Seq<char>>(message@),
    }
}

/// Reads the dimensions and the pixels of a true-color TGA file.
pub fn tga_pixels(data: &[u8]) -> (r: Result<(i32, i32, Vec<u8>), String>)
    ensures
        tga_result(r, tga_content(data@)),
{
    if data.len() < 18 {
        return Err("Arquivo TGA inválido ou corrompido.".to_owned());
    }
    if data[1] != 0 || (data[2] != 2 && data[2] != 10) || (data[16] != 24 && data[16] != 32) {
        return Err(
            "O RGBA8 requer um TGA true-color de 24 ou 32 bits, sem paleta.".to_owned(),
        );
    }
    let (width, height) = tga_dimensions(data)?;
    let count: usize = match (width as usize).checked_mul(height as usize) {
        Some(count) => count,
        None => return Err("Textura TGA muito grande.".to_owned()),
    };
    let start: usize = tga_pixel_start(data)?;
    if count.checked_mul(4).is_none() {
        return Err("Textura TGA muito grande.".to_owned());
    }
    let wide = data[16] == 32;
    if data[2] == 2 {
        let bytes: usize = if wide {
            4 * count
        } else {
            3 * count
        };
        if bytes > data.len() - start {
            return Err("Dados de pixels TGA truncados.".to_owned());
        }
        let mut pixels: Vec<u8> = Vec::new();
        append_stored(&mut pixels, data, start, wide, count);
        assert(pixels@ =~= stored_pixels(data@, start as int, wide, count as int));
        Ok((width, height, pixels))
    } else {
        let pixels = unpack_pixels(data, start, wide, count)?;
        Ok((width, height, pixels))
    }
}

/// The header of an uncompressed 32-bit TGA file with its rows from the top.
pub open spec fn tga_header(width: u16, height: u16) -> Seq<u8> {
    seq![0u8, 0, 2, 0, 0, 0, 0, 0, 0, 0, 0, 0] + bytes::le16(width) + bytes::le16(height) + seq![32u8, 0x28]
}

/// The TGA file of the given pixels.
pub open spec fn tga_file(pixels: Seq<u8>, width: i32, height: i32) -> Result<
    Seq<u8>,
    Seq<char>,
> {
    if width < 0 || width > 65535 {
        Err("Largura inválida para TGA."@)
    } else if height < 0 || height > 65535 {
        Err("Altura inválida para TGA."@)
    } else if width * height * 4 > usize::MAX {
        Err("Textura muito grande."@)
    } else if pixels.len() < width * height * 4 {
        Err("Dados RGBA8 truncados."@)
    } else {
        Ok(tga_header(width as u16, height as u16) + pixels.take(width * height * 4))
    }
}

/// A file that is handed to callers.
pub open spec fn bytes_result(r: Result<Vec<u8>, String>, model: Result<Seq<u8>, Seq<char>>) -> bool {
    match r {
        Ok(bytes) => model == Ok::<Seq<u8>, Seq<char>>(bytes@),
        Err(message) => model == Err::<Seq<u8>, Seq<char>>(message@),
    }
}

/// Four times the product of two numbers, where it fits.
pub fn four_times(width: usize, height: usize) -> (r: Option<usize>)
    ensures
        match r {
            Some(n) => n == width * height * 4,
            None => width * height * 4 > usize::MAX,
        },
{
    match width.checked_mul(height) {
        Some(count) => count.checked_mul(4),
        None => {
            proof {
                lemma_mul_nonnegative(width as int, height as int);
            }
            None
        },
    }
}

pub fn build_tga(pixels: &[u8], width: i32, height: i32) -> (r: Result<Vec<u8>, String>)
    ensures
        bytes_result(r, tga_file(pixels@, width, height)),
{
    if width < 0 || width > 65535 {
        return Err("Largura inválida para TGA.".to_owned());
    }
    if height < 0 || height > 65535 {
        return Err("Altura inválida para TGA.".to_owned());
    }
    let expected: usize = match four_times(width as usize, height as usize) {
        Some(expected) => expected,
        None => return Err("Textura muito grande.".to_owned()),
    };
    if pixels.len() < expected {
        return Err("Dados RGBA8 truncados.".to_owned());
    }
    let mut output: Vec<u8> = vec![0u8, 0, 2, 0, 0, 0, 0, 0, 0, 0, 0, 0];
    bytes::write_u16(&mut output, width as u16);
    bytes::write_u16(&mut output, height as u16);
    output.push(32);
    output.push(0x28);
    assert(output@ =~= tga_header(width as u16, height as u16));
    bytes::append(&mut output, slice_subrange(pixels, 0, expected));
    assert(pixels@.subrange(0, expected as int) =~= pixels@.take(expected as int));
    Ok(output)
}

/// The number of four by four blocks that cover `n` pixels in one direction.
pub open spec fn blocks_over(n: int) -> int {
    (n + 3) / 4
}

/// The bytes of one block.
pub open spec fn block_len(format: UtxFormat) -> int {
    if format == UtxFormat::Dxt1 {
        8
    } else {
        16
    }
}

/// The length of a block-compressed picture.
pub open spec fn blocks_len(width: int, height: int, format: UtxFormat) -> int {
    blocks_over(width) * blocks_over(height) * block_len(format)
}

/// The length of the picture in a DDS file.
pub open spec fn dxt_len(width: i32, height: i32, format: UtxFormat) -> Result<int, Seq<char>> {
    if width <= 0 || height <= 0 {
        Err("Dimensões DXT inválidas."@)
    } else if !formats::compressed(format) {
        Err("Formato DXT inválido."@)
    } else if blocks_len(width as int, height as int, format) > usize::MAX {
        Err("Textura DDS muito grande."@)
    } else {
        Ok(blocks_len(width as int, height as int, format))
    }
}

/// The product of three numbers, where it fits.
pub fn product(a: usize, b: usize, c: usize) -> (r: Option<usize>)
    requires
        a > 0,
        b > 0,
        c > 0,
    ensures
        match r {
            Some(n) => n == a * b * c,
            None => a * b * c > usize::MAX,
        },
{
    match a.checked_mul(b) {
        Some(ab) => ab.checked_mul(c),
        None => {
            assert(a * b * c >= a * b) by (nonlinear_arith)
                requires
                    a * b >= 0,
                    c >= 1,
            ;
            None
        },
    }
}

pub fn dxt_mip_size(width: i32, height: i32, format: UtxFormat) -> (r: Result<usize, String>)
    ensures
        match r {
            Ok(size) => dxt_len(width, height, format) == Ok::<int, Seq<char>>(size as int),
            Err(message) => dxt_len(width, height, format) == Err::<int, Seq<char>>(message@),
        },
{
    if width <= 0 || height <= 0 {
        return Err("Dimensões DXT inválidas.".to_owned());
    }
    if !format.is_dxt() {
        return Err("Formato DXT inválido.".to_owned());
    }
    let bytes: usize = if format == UtxFormat::Dxt1 {
        8
    } else {
        16
    };
    match product((width as usize + 3) / 4, (height as usize + 3) / 4, bytes) {
        Some(size) => Ok(size),
        None => Err("Textura DDS muito grande.".to_owned()),
    }
}

/// The four characters that name a compression in a DDS file.
pub open spec fn four_cc(format: UtxFormat) -> Seq<u8> {
    if format == UtxFormat::Dxt3 {
        seq![68u8, 88, 84, 51]
    } else if format == UtxFormat::Dxt5 {
        seq![68u8, 88, 84, 53]
    } else {
        seq![68u8, 88, 84, 49]
    }
}

/// Whether a file starts like a DDS file with a whole header.
pub open spec fn is_dds(d: Seq<u8>) -> bool {
    d.len() >= 128 && d.take(4) == seq![68u8, 68, 83, 32]
}

/// The compression that a DDS file names.
pub open spec fn dds_format(d: Seq<u8>) -> Option<UtxFormat> {
    let name = d.subrange(84, 88);
    if name == four_cc(UtxFormat::Dxt1) {
        Some(UtxFormat::Dxt1)
    } else if name == four_cc(UtxFormat::Dxt3) {
        Some(UtxFormat::Dxt3)
    } else if name == four_cc(UtxFormat::Dxt5) {
        Some(UtxFormat::Dxt5)
    } else {
        None
    }
}

pub open spec fn dds_height(d: Seq<u8>) -> i32 {
    bytes::i32_of(d.subrange(12, 16))
}

pub open spec fn dds_width(d: Seq<u8>) -> i32 {
    bytes::i32_of(d.subrange(16, 20))
}

/// The compression, the dimensions and the first picture of a DDS file.
pub open spec fn dds_content(d: Seq<u8>) -> Result<(UtxFormat, i32, i32, Seq<u8>), Seq<char>> {
    if !is_dds(d) {
        Err("O DXT requer um arquivo DDS válido."@)
    } else {
        match dds_format(d) {
            None => Err("O DDS deve estar compactado como DXT1, DXT3 ou DXT5."@),
            Some(format) => match dxt_len(dds_width(d), dds_height(d), format) {
                Err(e) => Err(e),
                Ok(size) => if 128 + size > usize::MAX {
                    Err("Textura DDS muito grande."@)
                } else if 128 + size > d.len() {
                    Err("Dados de pixels DDS truncados."@)
                } else {
                    Ok((format, dds_width(d), dds_height(d), d.subrange(128, 128 + size)))
                },
            },
        }
    }
}

fn is_at(data: &[u8], at: usize, a: u8, b: u8, c: u8, d: u8) -> (r: bool)
    requires
        at + 4 <= data@.len(),
    ensures
        r == (data@.subrange(at as int, at + 4) == seq![a, b, c, d]),
{
    let available: usize = data.len();
    let same = data[at] == a && data[at + 1] == b && data[at + 2] == c && data[at + 3] == d;
    proof {
        let s = data@.subrange(at as int, at + 4);
        if same {
            assert(s =~= seq![a, b, c, d]);
        } else {
            assert(s[0] == data@[at as int] && s[1] == data@[at + 1] && s[2] == data@[at + 2]
                && s[3] == data@[at + 3]);
            assert(seq![a, b, c, d][0] == a && seq![a, b, c, d][1] == b && seq![a, b, c, d][2] == c
                && seq![a, b, c, d][3] == d);
        }
    }
    same
}

fn starts_like_dds(data: &[u8]) -> (r: bool)
    ensures
        r == is_dds(data@),
{
    if data.len() < 128 {
        return false;
    }
    assert(data@.take(4) =~= data@.subrange(0, 4));
    is_at(data, 0, 68, 68, 83, 32)
}

/// The content of a DDS file, as it is handed to callers.
pub open spec fn dds_result(
    r: Result<(UtxFormat, i32, i32, Vec<u8>), String>,
    model: Result<(UtxFormat, i32, i32, Seq<u8>), Seq<char>>,
) -> bool {
    match r {
        Ok((format, width, height, pixels)) => model == Ok::<
            (UtxFormat, i32, i32, Seq<u8>),
            Seq<char>,
        >((format, width, height, pixels@)),
        Err(message) => model == Err::<(UtxFormat, i32, i32, Seq<u8>), Seq<char>>(message@),
    }
}

/// Reads the first picture of a block-compressed DDS file.
pub fn dds_pixels(data: &[u8]) -> (r: Result<(UtxFormat, i32, i32, Vec<u8>), String>)
    ensures
        dds_result(r, dds_content(data@)),
{
    if !starts_like_dds(data) {
        return Err("O DXT requer um arquivo DDS válido.".to_owned());
    }
    let height: i32 = bytes::i32_at(data, 12);
    let width: i32 = bytes::i32_at(data, 16);
    let format = if is_at(data, 84, 68, 88, 84, 49) {
        UtxFormat::Dxt1
    } else if is_at(data, 84, 68, 88, 84, 51) {
        UtxFormat::Dxt3
    } else if is_at(data, 84, 68, 88, 84, 53) {
        UtxFormat::Dxt5
    } else {
        return Err("O DDS deve estar compactado como DXT1, DXT3 ou DXT5.".to_owned());
    };
    let size: usize = dxt_mip_size(width, height, format)?;
    let end: usize = match size.checked_add(128) {
        Some(end) => end,
        None => return Err("Textura DDS muito grande.".to_owned()),
    };
    if end > data.len() {
        return Err("Dados de pixels DDS truncados.".to_owned());
    }
    Ok((format, width, height, bytes::copy_range(data, 128, end)))
}

pub open spec fn zeros(n: nat) -> Seq<u8> {
    Seq::new(n, |i: int| 0u8)
}

/// The header of a DDS file with one block-compressed picture.
pub open spec fn dds_header(width: i32, height: i32, len: i32, format: UtxFormat) -> Seq<u8> {
    seq![68u8, 68, 83, 32] + bytes::i32_bytes(124) + bytes::i32_bytes(0x0008_1007) + bytes::i32_bytes(height)
        + bytes::i32_bytes(width) + bytes::i32_bytes(len) + zeros(52) + bytes::i32_bytes(32) + bytes::i32_bytes(4)
        + four_cc(format) + zeros(20) + bytes::i32_bytes(0x1000) + zeros(16)
}

/// The DDS file of the given blocks.
pub open spec fn dds_file(pixels: Seq<u8>, width: i32, height: i32, format: UtxFormat) -> Result<
    Seq<u8>,
    Seq<char>,
> {
    if width <= 0 || height <= 0 {
        Err("Dimensões DXT inválidas."@)
    } else {
        let size = blocks_len(width as int, height as int, format);
        if pixels.len() < size {
            Err("Dados DXT truncados."@)
        } else if size > i32::MAX {
            Err("Textura DXT muito grande."@)
        } else {
            Ok(dds_header(width, height, size as i32, format) + pixels.take(size))
        }
    }
}

pub fn append_zeros(output: &mut Vec<u8>, n: usize)
    ensures
        final(output)@ == old(output)@ + zeros(n as nat),
{
    let mut i: usize = 0;
    assert(output@ =~= old(output)@ + zeros(0));
    while i < n
        invariant
            i <= n,
            output@ == old(output)@ + zeros(i as nat),
        decreases n - i,
    {
        output.push(0);
        i = i + 1;
        assert(output@ =~= old(output)@ + zeros(i as nat));
    }
}

/// The header of a DDS file.
fn write_dds_header(width: i32, height: i32, len: i32, format: UtxFormat) -> (r: Vec<u8>)
    ensures
        r@ == dds_header(width, height, len, format),
{
    let mut output: Vec<u8> = vec![68u8, 68, 83, 32];
    bytes::write_i32(&mut output, 124);
    bytes::write_i32(&mut output, 0x0008_1007);
    bytes::write_i32(&mut output, height);
    bytes::write_i32(&mut output, width);
    bytes::write_i32(&mut output, len);
    append_zeros(&mut output, 52);
    bytes::write_i32(&mut output, 32);
    bytes::write_i32(&mut output, 4);
    let ghost head = output@;
    output.push(68);
    output.push(88);
    output.push(84);
    output.push(if format == UtxFormat::Dxt3 {
        51
    } else if format == UtxFormat::Dxt5 {
        53
    } else {
        49
    });
    assert(output@ =~= head + four_cc(format));
    append_zeros(&mut output, 20);
    bytes::write_i32(&mut output, 0x1000);
    append_zeros(&mut output, 16);
    output
}

pub fn build_dds(pixels: &[u8], width: i32, height: i32, format: UtxFormat) -> (r: Result<
    Vec<u8>,
    String,
>)
    ensures
        bytes_result(r, dds_file(pixels@, width, height, format)),
{
    if width <= 0 || height <= 0 {
        return Err("Dimensões DXT inválidas.".to_owned());
    }
    let bytes: usize = if format == UtxFormat::Dxt1 {
        8
    } else {
        16
    };
    let available: usize = pixels.len();
    let size: usize = match product((width as usize + 3) / 4, (height as usize + 3) / 4, bytes) {
        Some(size) => size,
        None => return Err("Dados DXT truncados.".to_owned()),
    };
    if available < size {
        return Err("Dados DXT truncados.".to_owned());
    }
    if size > 0x7fff_ffff {
        return Err("Textura DXT muito grande.".to_owned());
    }
    let mut output = write_dds_header(width, height, size as i32, format);
    bytes::append(&mut output, slice_subrange(pixels, 0, size));
    assert(pixels@.subrange(0, size as int) =~= pixels@.take(size as int));
    Ok(output)
}

/// Why a DDS file cannot replace a picture of the given kind, if it cannot.
pub open spec fn dds_misfit(d: Seq<u8>, width: i32, height: i32, format: UtxFormat) -> Result<
    (),
    Seq<char>,
> {
    if !is_dds(d) {
        Err("O DXT requer um arquivo DDS válido."@)
    } else if dds_width(d) != width || dds_height(d) != height {
        Err(edits::wrong_size_text(width, height, dds_width(d), dds_height(d)))
    } else if !formats::compressed(format) {
        Err("Formato DXT inválido."@)
    } else if d.subrange(84, 88) != four_cc(format) {
        Err("Formato DDS incompatível: esperado "@ + formats::label_of(format) + "."@)
    } else {
        Ok(())
    }
}

pub fn validate_dds(data: &[u8], width: i32, height: i32, format: UtxFormat) -> (r: Result<
    (),
    String,
>)
    ensures
        text::seen(r) == dds_misfit(data@, width, height, format),
{
    if !starts_like_dds(data) {
        return Err("O DXT requer um arquivo DDS válido.".to_owned());
    }
    let file_height: i32 = bytes::i32_at(data, 12);
    let file_width: i32 = bytes::i32_at(data, 16);
    if file_width != width || file_height != height {
        return Err(edits::wrong_size_message(width, height, file_width, file_height));
    }
    let last: u8 = match format {
        UtxFormat::Dxt1 => 49,
        UtxFormat::Dxt3 => 51,
        UtxFormat::Dxt5 => 53,
        _ => return Err("Formato DXT inválido.".to_owned()),
    };
    if !is_at(data, 84, 68, 88, 84, last) {
        return Err(text::join3("Formato DDS incompatível: esperado ", format.label(), "."));
    }
    Ok(())
}

/// The format that a picture without one is taken for, by its length.
pub open spec fn guessed_format(size: int, width: i32, height: i32) -> UtxFormat {
    if width <= 0 || height <= 0 {
        UtxFormat::Unknown
    } else if size == blocks_len(width as int, height as int, UtxFormat::Dxt1) {
        UtxFormat::Dxt1
    } else if size == blocks_len(width as int, height as int, UtxFormat::Dxt3) {
        UtxFormat::Dxt3
    } else if size == width * height * 4 {
        UtxFormat::Rgba8
    } else if size == width * height {
        UtxFormat::P8
    } else {
        UtxFormat::Unknown
    }
}

/// Whether `size` is the given product, which may not fit.
fn is_product(size: usize, a: usize, b: usize, c: usize) -> (r: bool)
    requires
        a > 0,
        b > 0,
        c > 0,
    ensures
        r == (size == a * b * c),
{
    match product(a, b, c) {
        Some(n) => size == n,
        None => false,
    }
}

pub fn detect_format(size: usize, width: i32, height: i32) -> (r: UtxFormat)
    ensures
        r == guessed_format(size as int, width, height),
{
    if width <= 0 || height <= 0 {
        return UtxFormat::Unknown;
    }
    let across: usize = (width as usize + 3) / 4;
    let down: usize = (height as usize + 3) / 4;
    if is_product(size, across, down, 8) {
        UtxFormat::Dxt1
    } else if is_product(size, across, down, 16) {
        UtxFormat::Dxt3
    } else if is_product(size, width as usize, height as usize, 4) {
        UtxFormat::Rgba8
    } else if is_product(size, width as usize, height as usize, 1) {
        UtxFormat::P8
    } else {
        UtxFormat::Unknown
    }
}

/// Pixels with their first and third bytes exchanged.
pub open spec fn swapped_pixels(pixels: Seq<u8>, n: nat) -> Seq<u8> {
    Seq::new(
        n,
        |i: int|
            if i % 4 == 0 {
                pixels[i + 2]
            } else if i % 4 == 2 {
                pixels[i - 2]
            } else {
                pixels[i]
            },
    )
}

pub open spec fn rgba_of_bgra(pixels: Seq<u8>, width: int, height: int) -> Result<
    Seq<u8>,
    Seq<char>,
> {
    if width * height * 4 > usize::MAX {
        Err("Textura muito grande."@)
    } else if pixels.len() < width * height * 4 {
        Err("Dados RGBA8 truncados."@)
    } else {
        Ok(swapped_pixels(pixels, (width * height * 4) as nat))
    }
}

pub fn bgra_to_rgba(pixels: &[u8], width: usize, height: usize) -> (r: Result<Vec<u8>, String>)
    ensures
        bytes_result(r, rgba_of_bgra(pixels@, width as int, height as int)),
{
    let needed: usize = match four_times(width, height) {
        Some(needed) => needed,
        None => return Err("Textura muito grande.".to_owned()),
    };
    if pixels.len() < needed {
        return Err("Dados RGBA8 truncados.".to_owned());
    }
    let mut rgba: Vec<u8> = Vec::new();
    let mut i: usize = 0;
    assert(rgba@ =~= swapped_pixels(pixels@, 0));
    while i < needed
        invariant
            i <= needed <= pixels@.len(),
            needed % 4 == 0,
            i % 4 == 0,
            rgba@ == swapped_pixels(pixels@, i as nat),
        decreases needed - i,
    {
        rgba.push(pixels[i + 2]);
        rgba.push(pixels[i + 1]);
        rgba.push(pixels[i]);
        rgba.push(pixels[i + 3]);
        i = i + 4;
        assert(rgba@ =~= swapped_pixels(pixels@, i as nat));
    }
    Ok(rgba)
}

/// Pixels that are put into a TGA file come out of it.
pub proof fn tga_round_trip(pixels: Seq<u8>, width: i32, height: i32)
    requires
        0 < width,
        0 < height,
    ensures
        tga_file(pixels, width, height) matches Ok(file) ==> tga_content(file) == Ok::<
            (i32, i32, Seq<u8>),
            Seq<char>,
        >((width, height, pixels.take(width * height * 4))),
{
    if let Ok(file) = tga_file(pixels, width, height) {
        let n = width * height;
        assert(n > 0) by (nonlinear_arith)
            requires
                n == width * height,
                width > 0,
                height > 0,
        ;
        bytes::integers_round_trip(0, 0, width as u16, 0);
        bytes::integers_round_trip(0, 0, height as u16, 0);
        assert(file.subrange(12, 14) =~= bytes::le16(width as u16));
        assert(file.subrange(14, 16) =~= bytes::le16(height as u16));
        assert(stored_pixels(file, 18, true, n) =~= pixels.take(n * 4));
    }
}

/// Blocks that are put into a DDS file come out of it, with their compression.
pub proof fn dds_round_trip(pixels: Seq<u8>, width: i32, height: i32, format: UtxFormat)
    requires
        formats::compressed(format),
    ensures
        dds_file(pixels, width, height, format) matches Ok(file) ==> dds_content(file) == Ok::<
            (UtxFormat, i32, i32, Seq<u8>),
            Seq<char>,
        >((format, width, height, pixels.take(blocks_len(width as int, height as int, format)))),
{
    if let Ok(file) = dds_file(pixels, width, height, format) {
        let size = blocks_len(width as int, height as int, format);
        bytes::integers_round_trip(0, width, 0, 0);
        bytes::integers_round_trip(0, height, 0, 0);
        assert(size >= 0) by (nonlinear_arith)
            requires
                size == blocks_over(width as int) * blocks_over(height as int) * block_len(format),
                blocks_over(width as int) >= 0,
                blocks_over(height as int) >= 0,
                block_len(format) >= 0,
        ;
        assert(file.take(4) =~= seq![68u8, 68, 83, 32]);
        assert(file.subrange(12, 16) =~= bytes::i32_bytes(height));
        assert(file.subrange(16, 20) =~= bytes::i32_bytes(width));
        assert(file.subrange(84, 88) =~= four_cc(format));
        assert(four_cc(UtxFormat::Dxt1)[3] == 49);
        assert(four_cc(UtxFormat::Dxt3)[3] == 51);
        assert(four_cc(UtxFormat::Dxt5)[3] == 53);
        assert(file.subrange(128, 128 + size) =~= pixels.take(size));
    }
}

} // verus!
