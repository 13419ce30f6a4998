//! Block-compressed pictures (DXT1, DXT3 and DXT5).

use vstd::prelude::*;
use vstd::arithmetic::div_mod::*;
use vstd::slice::slice_subrange;
use crate::formats::UtxFormat;
use crate::bytes;
use crate::images;

verus! {

/// A number without its last `i` digits in the given base.
pub open spec fn shortened(value: int, base: int, i: nat) -> int
    decreases i,
{
    if i == 0 {
        value
    } else {
        shortened(value, base, (i - 1) as nat) / base
    }
}

/// The digit at place `i` of a number in the given base.
pub open spec fn digit_in(value: int, base: int, i: nat) -> int {
    shortened(value, base, i) % base
}

/// One channel of a 16-bit color, from 0 to 255: red, green and blue have five,
/// six and five bits.
pub open spec fn channel_of(color: u16, channel: int) -> u8 {
    if channel == 0 {
        (color / 2048 * 255 / 31) as u8
    } else if channel == 1 {
        (color / 32 % 64 * 255 / 63) as u8
    } else {
        (color % 32 * 255 / 31) as u8
    }
}

/// One channel of one of the four colors of a block. Two are stored, the others
/// lie between them; where the first is not the larger, the fourth is black.
pub open spec fn palette_channel(c0: u16, c1: u16, index: int, channel: int) -> u8 {
    let first = channel_of(c0, channel);
    let second = channel_of(c1, channel);
    if index == 0 {
        first
    } else if index == 1 {
        second
    } else if c0 > c1 {
        if index == 2 {
            ((2 * first + second) / 3) as u8
        } else {
            ((first + 2 * second) / 3) as u8
        }
    } else if index == 2 {
        ((first + second) / 2) as u8
    } else {
        0
    }
}

/// One of the eight alpha values of a DXT5 block.
pub open spec fn alpha_level(a0: u8, a1: u8, index: int) -> u8 {
    if index == 0 {
        a0
    } else if index == 1 {
        a1
    } else if a0 > a1 {
        (((8 - index) * a0 + (index - 1) * a1) / 7) as u8
    } else if index < 6 {
        (((6 - index) * a0 + (index - 1) * a1) / 5) as u8
    } else if index == 6 {
        0
    } else {
        255
    }
}

/// The 48 bits of the alpha indices of a DXT5 block.
pub open spec fn alpha_bits(block: Seq<u8>) -> int {
    block[2] + 256 * (block[3] + 256 * (block[4] + 256 * (block[5] + 256 * (block[6] + 256
        * block[7]))))
}

/// The alpha of one of the 16 pixels of a block.
pub open spec fn block_alpha(block: Seq<u8>, format: UtxFormat, i: int) -> u8 {
    if format == UtxFormat::Dxt1 {
        255
    } else if format == UtxFormat::Dxt3 {
        if i % 2 == 0 {
            (block[i / 2] % 16 * 17) as u8
        } else {
            (block[i / 2] / 16 * 17) as u8
        }
    } else {
        alpha_level(block[0], block[1], digit_in(alpha_bits(block), 8, i as nat))
    }
}

/// Where the colors of a block start.
pub open spec fn colors_at(format: UtxFormat) -> int {
    if format == UtxFormat::Dxt1 {
        0
    } else {
        8
    }
}

/// One channel (red, green, blue, alpha) of one of the 16 pixels of a block.
pub open spec fn block_channel(block: Seq<u8>, format: UtxFormat, i: int, channel: int) -> u8 {
    let at = colors_at(format);
    let c0 = bytes::u16_of(block.subrange(at, at + 2));
    let c1 = bytes::u16_of(block.subrange(at + 2, at + 4));
    let index = digit_in(bytes::u32_of(block.subrange(at + 4, at + 8)) as int, 4, i as nat);
    if format == UtxFormat::Dxt1 && c0 <= c1 && index == 3 {
        0
    } else if channel < 3 {
        palette_channel(c0, c1, index, channel)
    } else {
        block_alpha(block, format, i)
    }
}

/// The block at position `k` of a picture.
pub open spec fn nth_block(source: Seq<u8>, format: UtxFormat, k: int) -> Seq<u8> {
    source.subrange(k * images::block_len(format), k * images::block_len(format) + images::block_len(format))
}

/// The block that holds the pixel at `x`, `y`.
pub open spec fn block_of(width: int, x: int, y: int) -> int {
    (y / 4) * images::blocks_over(width) + x / 4
}

/// The place of a pixel in its block.
pub open spec fn place_in_block(x: int, y: int) -> int {
    (y % 4) * 4 + x % 4
}

/// One byte of the decoded picture, whose pixels stand row by row.
pub open spec fn decoded_byte(source: Seq<u8>, width: int, format: UtxFormat, i: int) -> u8 {
    let x = (i / 4) % width;
    let y = (i / 4) / width;
    block_channel(
        nth_block(source, format, block_of(width, x, y)),
        format,
        place_in_block(x, y),
        i % 4,
    )
}

/// The picture that the blocks stand for, four bytes per pixel.
pub open spec fn decoded(source: Seq<u8>, width: int, height: int, format: UtxFormat) -> Result<
    Seq<u8>,
    Seq<char>,
> {
    if images::blocks_len(width, height, format) > usize::MAX {
        Err("Textura DXT muito grande."@)
    } else if source.len() < images::blocks_len(width, height, format) {
        Err("Dados DXT truncados."@)
    } else if width * height * 4 > usize::MAX {
        Err("Textura muito grande."@)
    } else {
        Ok(
            Seq::new(
                (width * height * 4) as nat,
                |i: int| decoded_byte(source, width, format, i),
            ),
        )
    }
}

fn unpack_channel(color: u16, channel: usize) -> (r: u8)
    requires
        channel < 3,
    ensures
        r == channel_of(color, channel as int),
{
    if channel == 0 {
        (color / 2048 * 255 / 31) as u8
    } else if channel == 1 {
        (color / 32 % 64 * 255 / 63) as u8
    } else {
        (color % 32 * 255 / 31) as u8
    }
}

/// The four colors of a block, three bytes each.
fn dxt_palette(c0: u16, c1: u16) -> (r: Vec<u8>)
    ensures
        r@.len() == 12,
        forall|i: int|
            0 <= i < 12 ==> #[trigger] r@[i] == palette_channel(c0, c1, i / 3, i % 3),
{
    let mut colors: Vec<u8> = Vec::new();
    let mut i: usize = 0;
    while i < 12
        invariant
            i <= 12,
            colors@.len() == i,
            forall|k: int|
                0 <= k < i ==> #[trigger] colors@[k] == palette_channel(c0, c1, k / 3, k % 3),
        decreases 12 - i,
    {
        let first: u16 = unpack_channel(c0, i % 3) as u16;
        let second: u16 = unpack_channel(c1, i % 3) as u16;
        let index: usize = i / 3;
        let value: u8 = if index == 0 {
            first as u8
        } else if index == 1 {
            second as u8
        } else if c0 > c1 {
            if index == 2 {
                ((2 * first + second) / 3) as u8
            } else {
                ((first + 2 * second) / 3) as u8
            }
        } else if index == 2 {
            ((first + second) / 2) as u8
        } else {
            0
        };
        colors.push(value);
        i = i + 1;
    }
    colors
}

/// One of the eight alpha values of a DXT5 block.
fn dxt5_level(a0: u8, a1: u8, index: usize) -> (r: u8)
    requires
        index < 8,
    ensures
        r == alpha_level(a0, a1, index as int),
{
    let first: u16 = a0 as u16;
    let second: u16 = a1 as u16;
    if index == 0 {
        a0
    } else if index == 1 {
        a1
    } else if a0 > a1 {
        let near: u16 = 8 - index as u16;
        let far: u16 = index as u16 - 1;
        assert(0 <= near * first <= 6 * 255 && 0 <= far * second <= 6 * 255 && near * first + far
            * second <= 7 * 255) by (nonlinear_arith)
            requires
                near + far == 7,
                near <= 6,
                far <= 6,
                first <= 255,
                second <= 255,
        ;
        ((near * first + far * second) / 7) as u8
    } else if index < 6 {
        let near: u16 = 6 - index as u16;
        let far: u16 = index as u16 - 1;
        assert(0 <= near * first <= 6 * 255 && 0 <= far * second <= 6 * 255 && near * first + far
            * second <= 5 * 255) by (nonlinear_arith)
            requires
                near + far == 5,
                near <= 6,
                far <= 6,
                first <= 255,
                second <= 255,
        ;
        ((near * first + far * second) / 5) as u8
    } else if index == 6 {
        0
    } else {
        255
    }
}

/// The alpha of each of the 16 pixels of a block.
fn block_alphas(block: &[u8], format: UtxFormat) -> (r: Vec<u8>)
    requires
        block@.len() == images::block_len(format),
    ensures
        r@.len() == 16,
        forall|i: int| 0 <= i < 16 ==> #[trigger] r@[i] == block_alpha(block@, format, i),
{
    let mut alphas: Vec<u8> = Vec::new();
    let mut rest: u64 = 0;
    if format != UtxFormat::Dxt1 {
        rest = block[2] as u64 + 256 * (block[3] as u64 + 256 * (block[4] as u64 + 256 * (
        block[5] as u64 + 256 * (block[6] as u64 + 256 * block[7] as u64))));
    }
    let mut i: usize = 0;
    while i < 16
        invariant
            i <= 16,
            block@.len() == images::block_len(format),
            alphas@.len() == i,
            forall|k: int|
                0 <= k < i ==> #[trigger] alphas@[k] == block_alpha(block@, format, k),
            format != UtxFormat::Dxt1 ==> rest == shortened(alpha_bits(block@), 8, i as nat),
        decreases 16 - i,
    {
        let alpha: u8 = if format == UtxFormat::Dxt1 {
            255
        } else if format == UtxFormat::Dxt3 {
            if i % 2 == 0 {
                block[i / 2] % 16 * 17
            } else {
                block[i / 2] / 16 * 17
            }
        } else {
            dxt5_level(block[0], block[1], (rest % 8) as usize)
        };
        alphas.push(alpha);
        rest = rest / 8;
        i = i + 1;
    }
    alphas
}

/// The 16 pixels of a block, four bytes each.
fn decode_block(block: &[u8], format: UtxFormat) -> (r: Vec<u8>)
    requires
        block@.len() == images::block_len(format),
    ensures
        r@.len() == 64,
        forall|i: int|
            0 <= i < 64 ==> #[trigger] r@[i] == block_channel(block@, format, i / 4, i % 4),
{
    let at: usize = if format == UtxFormat::Dxt1 {
        0
    } else {
        8
    };
    let c0: u16 = bytes::u16_at(block, at);
    let c1: u16 = bytes::u16_at(block, at + 2);
    let bits: u32 = bytes::u32_at(block, at + 4);
    let palette = dxt_palette(c0, c1);
    let alphas = block_alphas(block, format);
    let mut rest: u32 = bits;
    let mut pixels: Vec<u8> = Vec::new();
    let mut i: usize = 0;
    while i < 16
        invariant
            i <= 16,
            at == colors_at(format),
            block@.len() == images::block_len(format),
            c0 == bytes::u16_of(block@.subrange(at as int, at + 2)),
            c1 == bytes::u16_of(block@.subrange(at + 2, at + 4)),
            bits == bytes::u32_of(block@.subrange(at + 4, at + 8)),
            palette@.len() == 12,
            forall|k: int|
                0 <= k < 12 ==> #[trigger] palette@[k] == palette_channel(c0, c1, k / 3, k % 3),
            alphas@.len() == 16,
            forall|k: int|
                0 <= k < 16 ==> #[trigger] alphas@[k] == block_alpha(block@, format, k),
            pixels@.len() == 4 * i,
            forall|k: int|
                0 <= k < 4 * i ==> #[trigger] pixels@[k] == block_channel(
                    block@,
                    format,
                    k / 4,
                    k % 4,
                ),
            rest == shortened(bits as int, 4, i as nat),
        decreases 16 - i,
    {
        let index: usize = (rest % 4) as usize;
        proof {
            assert(digit_in(bits as int, 4, i as nat) == index);
            assert((3 * index) / 3 == index && (3 * index) % 3 == 0);
            assert((3 * index + 1) / 3 == index && (3 * index + 1) % 3 == 1);
            assert((3 * index + 2) / 3 == index && (3 * index + 2) % 3 == 2);
        }
        let ghost before = pixels@;
        if format == UtxFormat::Dxt1 && c0 <= c1 && index == 3 {
            pixels.push(0);
            pixels.push(0);
            pixels.push(0);
            pixels.push(0);
        } else {
            pixels.push(palette[3 * index]);
            pixels.push(palette[3 * index + 1]);
            pixels.push(palette[3 * index + 2]);
            pixels.push(alphas[i]);
        }
        proof {
            assert forall|k: int| 0 <= k < 4 * (i + 1) implies #[trigger] pixels@[k]
                == block_channel(block@, format, k / 4, k % 4) by {
                if k < 4 * i {
                    assert(pixels@[k] == before[k]);
                } else {
                    assert(k / 4 == i);
                }
            }
        }
        rest = rest / 4;
        i = i + 1;
    }
    pixels
}

/// Where the bytes of a pixel start.
spec fn pixel_at(width: int, x: int, y: int) -> int {
    (y * width + x) * 4
}

/// The four bytes of a pixel are those that its block gives.
spec fn pixel_done(
    source: Seq<u8>,
    width: int,
    format: UtxFormat,
    output: Seq<u8>,
    x: int,
    y: int,
) -> bool {
    let block = nth_block(source, format, block_of(width, x, y));
    let at = pixel_at(width, x, y);
    let place = place_in_block(x, y);
    &&& output[at] == block_channel(block, format, place, 0)
    &&& output[at + 1] == block_channel(block, format, place, 1)
    &&& output[at + 2] == block_channel(block, format, place, 2)
    &&& output[at + 3] == block_channel(block, format, place, 3)
}

/// Every pixel of the blocks before `k`, and those of block `k` before place
/// `n`, are decoded.
spec fn decoded_until(
    source: Seq<u8>,
    width: int,
    height: int,
    format: UtxFormat,
    output: Seq<u8>,
    k: int,
    n: int,
) -> bool {
    forall|x: int, y: int|
        0 <= x < width && 0 <= y < height && (block_of(width, x, y) < k || (block_of(width, x, y)
            == k && place_in_block(x, y) < n)) ==> #[trigger] pixel_done(
            source,
            width,
            format,
            output,
            x,
            y,
        )
}

proof fn unique_parts(q: int, r: int, q2: int, r2: int, d: int)
    requires
        q * d + r == q2 * d + r2,
        0 <= r < d,
        0 <= r2 < d,
    ensures
        q == q2,
        r == r2,
{
    lemma_fundamental_div_mod_converse(q * d + r, d, q, r);
    lemma_fundamental_div_mod_converse(q * d + r, d, q2, r2);
}

proof fn pixel_inside(width: int, height: int, x: int, y: int)
    requires
        0 <= x < width,
        0 <= y < height,
    ensures
        0 <= pixel_at(width, x, y),
        pixel_at(width, x, y) + 4 <= width * height * 4,
        0 <= y * width + x < width * height,
{
    assert(0 <= y * width && y * width + width <= width * height) by (nonlinear_arith)
        requires
            0 <= y < height,
            0 < width,
    ;
}

proof fn block_inside(width: int, height: int, x: int, y: int)
    requires
        0 <= x < width,
        0 <= y < height,
    ensures
        0 <= block_of(width, x, y) < images::blocks_over(width) * images::blocks_over(height),
{
    let across = images::blocks_over(width);
    let down = images::blocks_over(height);
    let by = y / 4;
    let bx = x / 4;
    assert(0 <= by * across && by * across + across <= across * down) by (nonlinear_arith)
        requires
            0 <= by < down,
            0 < across,
    ;
}

/// Writes one pixel.
fn set_pixel(output: &mut Vec<u8>, at: usize, pixels: &Vec<u8>, from: usize)
    requires
        at + 4 <= old(output)@.len(),
        from + 4 <= pixels@.len(),
    ensures
        final(output)@.len() == old(output)@.len(),
        forall|i: int|
            0 <= i < final(output)@.len() ==> #[trigger] final(output)@[i] == (if at <= i < at + 4 {
                pixels@[from + i - at]
            } else {
                old(output)@[i]
            }),
{
    let length: usize = output.len();
    let available: usize = pixels.len();
    output[at] = pixels[from];
    output[at + 1] = pixels[from + 1];
    output[at + 2] = pixels[from + 2];
    output[at + 3] = pixels[from + 3];
}

proof fn pixel_written(
    source: Seq<u8>,
    width: int,
    height: int,
    format: UtxFormat,
    before: Seq<u8>,
    after: Seq<u8>,
    pixels: Seq<u8>,
    k: int,
    n: int,
    x: int,
    y: int,
)
    requires
        0 <= x < width,
        0 <= y < height,
        block_of(width, x, y) == k,
        place_in_block(x, y) == n,
        0 <= n < 16,
        before.len() == width * height * 4,
        after.len() == before.len(),
        pixels.len() == 64,
        forall|i: int|
            0 <= i < 64 ==> #[trigger] pixels[i] == block_channel(
                nth_block(source, format, k),
                format,
                i / 4,
                i % 4,
            ),
        forall|i: int|
            0 <= i < after.len() ==> #[trigger] after[i] == (if pixel_at(width, x, y) <= i
                < pixel_at(width, x, y) + 4 {
                pixels[4 * n + i - pixel_at(width, x, y)]
            } else {
                before[i]
            }),
        decoded_until(source, width, height, format, before, k, n),
    ensures
        decoded_until(source, width, height, format, after, k, n + 1),
{
    let at = pixel_at(width, x, y);
    pixel_inside(width, height, x, y);
    assert forall|x2: int, y2: int|
        0 <= x2 < width && 0 <= y2 < height && (block_of(width, x2, y2) < k || (block_of(
            width,
            x2,
            y2,
        ) == k && place_in_block(x2, y2) < n + 1)) implies #[trigger] pixel_done(
        source,
        width,
        format,
        after,
        x2,
        y2,
    ) by {
        pixel_inside(width, height, x2, y2);
        if x2 == x && y2 == y {
            assert(after[at] == pixels[4 * n]);
            assert(after[at + 1] == pixels[4 * n + 1]);
            assert(after[at + 2] == pixels[4 * n + 2]);
            assert(after[at + 3] == pixels[4 * n + 3]);
        } else {
            if y2 * width + x2 == y * width + x {
                unique_parts(y2, x2, y, x, width);
            }
            if block_of(width, x2, y2) == k && place_in_block(x2, y2) == n {
                unique_parts(y2 / 4, x2 / 4, y / 4, x / 4, images::blocks_over(width));
                assert(x2 == x && y2 == y);
            }
            assert(pixel_done(source, width, format, before, x2, y2));
        }
    }
}

proof fn pixel_outside(
    source: Seq<u8>,
    width: int,
    height: int,
    format: UtxFormat,
    output: Seq<u8>,
    bx: int,
    by: int,
    n: int,
)
    requires
        0 <= bx < images::blocks_over(width),
        0 <= by,
        0 <= n < 16,
        bx * 4 + n % 4 >= width || by * 4 + n / 4 >= height,
        decoded_until(
            source,
            width,
            height,
            format,
            output,
            by * images::blocks_over(width) + bx,
            n,
        ),
    ensures
        decoded_until(
            source,
            width,
            height,
            format,
            output,
            by * images::blocks_over(width) + bx,
            n + 1,
        ),
{
    let k = by * images::blocks_over(width) + bx;
    assert forall|x2: int, y2: int|
        0 <= x2 < width && 0 <= y2 < height && (block_of(width, x2, y2) < k || (block_of(
            width,
            x2,
            y2,
        ) == k && place_in_block(x2, y2) < n + 1)) implies #[trigger] pixel_done(
        source,
        width,
        format,
        output,
        x2,
        y2,
    ) by {
        if block_of(width, x2, y2) == k && place_in_block(x2, y2) == n {
            unique_parts(y2 / 4, x2 / 4, by, bx, images::blocks_over(width));
        }
    }
}

/// Decodes one block into the picture.
fn put_block(
    output: &mut Vec<u8>,
    source: &[u8],
    width: usize,
    height: usize,
    format: UtxFormat,
    bx: usize,
    by: usize,
    across: usize,
)
    requires
        across == images::blocks_over(width as int),
        bx < across,
        by < images::blocks_over(height as int),
        old(output)@.len() == width * height * 4,
        source@.len() >= images::blocks_len(width as int, height as int, format),
        decoded_until(
            source@,
            width as int,
            height as int,
            format,
            old(output)@,
            by * across + bx,
            0,
        ),
    ensures
        final(output)@.len() == old(output)@.len(),
        decoded_until(
            source@,
            width as int,
            height as int,
            format,
            final(output)@,
            by * across + bx,
            16,
        ),
{
    let ghost k = by * across + bx;
    let ghost down = images::blocks_over(height as int);
    let bytes: usize = if format == UtxFormat::Dxt1 {
        8
    } else {
        16
    };
    let available: usize = source.len();
    proof {
        assert(0 <= by * across && by * across + across <= across * down) by (nonlinear_arith)
            requires
                0 <= by < down,
                0 < across,
        ;
        assert((k + 1) * bytes <= across * down * bytes) by (nonlinear_arith)
            requires
                k + 1 <= across * down,
                0 <= bytes,
        ;
        assert((k + 1) * bytes == k * bytes + bytes) by (nonlinear_arith);
        assert(0 <= k * bytes) by (nonlinear_arith)
            requires
                0 <= k,
                0 <= bytes,
        ;
        assert(k <= k * bytes) by (nonlinear_arith)
            requires
                0 <= k,
                1 <= bytes,
        ;
    }
    let start: usize = (by * across + bx) * bytes;
    let pixels = decode_block(slice_subrange(source, start, start + bytes), format);
    assert(source@.subrange(start as int, start + bytes) == nth_block(source@, format, k));
    let mut n: usize = 0;
    while n < 16
        invariant
            n <= 16,
            k == by * across + bx,
            across == images::blocks_over(width as int),
            bx < across,
            by < images::blocks_over(height as int),
            output@.len() == width * height * 4,
            output@.len() == old(output)@.len(),
            pixels@.len() == 64,
            forall|i: int|
                0 <= i < 64 ==> #[trigger] pixels@[i] == block_channel(
                    nth_block(source@, format, k),
                    format,
                    i / 4,
                    i % 4,
                ),
            decoded_until(
                source@,
                width as int,
                height as int,
                format,
                output@,
                k,
                n as int,
            ),
        decreases 16 - n,
    {
        let down_rest: usize = height - by * 4;
        let across_rest: usize = width - bx * 4;
        if n % 4 < across_rest && n / 4 < down_rest {
            let x: usize = bx * 4 + n % 4;
            let y: usize = by * 4 + n / 4;
            let length: usize = output.len();
            proof {
                pixel_inside(width as int, height as int, x as int, y as int);
                assert(0 <= y * width) by (nonlinear_arith)
                    requires
                        0 <= y,
                        0 <= width,
                ;
            }
            let ghost before = output@;
            set_pixel(output, (y * width + x) * 4, &pixels, 4 * n);
            proof {
                pixel_written(
                    source@,
                    width as int,
                    height as int,
                    format,
                    before,
                    output@,
                    pixels@,
                    k,
                    n as int,
                    x as int,
                    y as int,
                );
            }
        } else {
            proof {
                pixel_outside(
                    source@,
                    width as int,
                    height as int,
                    format,
                    output@,
                    bx as int,
                    by as int,
                    n as int,
                );
            }
        }
        n = n + 1;
    }
}

proof fn next_block(
    source: Seq<u8>,
    width: int,
    height: int,
    format: UtxFormat,
    output: Seq<u8>,
    k: int,
)
    requires
        decoded_until(source, width, height, format, output, k, 16),
    ensures
        decoded_until(source, width, height, format, output, k + 1, 0),
{
    assert forall|x: int, y: int|
        0 <= x < width && 0 <= y < height && (block_of(width, x, y) < k + 1 || (block_of(
            width,
            x,
            y,
        ) == k + 1 && place_in_block(x, y) < 0)) implies #[trigger] pixel_done(
        source,
        width,
        format,
        output,
        x,
        y,
    ) by {
        assert(place_in_block(x, y) < 16);
    }
}

proof fn all_decoded(
    source: Seq<u8>,
    width: int,
    height: int,
    format: UtxFormat,
    output: Seq<u8>,
)
    requires
        width > 0,
        height > 0,
        output.len() == width * height * 4,
        decoded_until(
            source,
            width,
            height,
            format,
            output,
            images::blocks_over(width) * images::blocks_over(height),
            0,
        ),
    ensures
        output == Seq::new(
            (width * height * 4) as nat,
            |i: int| decoded_byte(source, width, format, i),
        ),
{
    assert forall|i: int| 0 <= i < output.len() implies output[i] == decoded_byte(
        source,
        width,
        format,
        i,
    ) by {
        let p = i / 4;
        let x = p % width;
        let y = p / width;
        lemma_fundamental_div_mod(p, width);
        assert(width * y == y * width) by (nonlinear_arith);
        assert(0 <= x < width && 0 <= y) by (nonlinear_arith)
            requires
                x == p % width,
                y == p / width,
                p >= 0,
                width > 0,
        ;
        assert(y < height) by (nonlinear_arith)
            requires
                y * width + x == p,
                0 <= x,
                p < width * height,
                width > 0,
        ;
        block_inside(width, height, x, y);
        assert(pixel_done(source, width, format, output, x, y));
        assert(i == pixel_at(width, x, y) + i % 4);
    }
    assert(output =~= Seq::new(
        (width * height * 4) as nat,
        |i: int| decoded_byte(source, width, format, i),
    ));
}

/// Decodes a block-compressed picture.
pub fn decode_dxt(source: &[u8], width: usize, height: usize, format: UtxFormat) -> (r: Result<
    Vec<u8>,
    String,
>)
    ensures
        images::bytes_result(r, decoded(source@, width as int, height as int, format)),
{
    let mut output: Vec<u8> = Vec::new();
    if width == 0 || height == 0 {
        proof {
            let across = images::blocks_over(width as int);
            let down = images::blocks_over(height as int);
            assert(across * down == 0) by (nonlinear_arith)
                requires
                    across == 0 || down == 0,
            ;
            assert(width * height == 0) by (nonlinear_arith)
                requires
                    width == 0 || height == 0,
            ;
            assert(output@ =~= Seq::new(
                0,
                |i: int| decoded_byte(source@, width as int, format, i),
            ));
        }
        return Ok(output);
    }
    let across: usize = (width - 1) / 4 + 1;
    let down: usize = (height - 1) / 4 + 1;
    let bytes: usize = if format == UtxFormat::Dxt1 {
        8
    } else {
        16
    };
    let required: usize = match images::product(across, down, bytes) {
        Some(required) => required,
        None => return Err("Textura DXT muito grande.".to_owned()),
    };
    if source.len() < required {
        return Err("Dados DXT truncados.".to_owned());
    }
    let total: usize = match images::four_times(width, height) {
        Some(total) => total,
        None => return Err("Textura muito grande.".to_owned()),
    };
    images::append_zeros(&mut output, total);
    let mut by: usize = 0;
    proof {
        assert forall|x: int, y: int| 0 <= x < width && 0 <= y < height implies block_of(
            width as int,
            x,
            y,
        ) >= 0 by {
            block_inside(width as int, height as int, x, y);
        }
        assert(0 * across == 0);
    }
    while by < down
        invariant
            by <= down,
            across == images::blocks_over(width as int),
            down == images::blocks_over(height as int),
            output@.len() == width * height * 4,
            source@.len() >= images::blocks_len(width as int, height as int, format),
            decoded_until(
                source@,
                width as int,
                height as int,
                format,
                output@,
                by * across,
                0,
            ),
        decreases down - by,
    {
        let mut bx: usize = 0;
        while bx < across
            invariant
                bx <= across,
                by < down,
                across == images::blocks_over(width as int),
                down == images::blocks_over(height as int),
                output@.len() == width * height * 4,
                source@.len() >= images::blocks_len(width as int, height as int, format),
                decoded_until(
                    source@,
                    width as int,
                    height as int,
                    format,
                    output@,
                    by * across + bx,
                    0,
                ),
            decreases across - bx,
        {
            put_block(&mut output, source, width, height, format, bx, by, across);
            proof {
                next_block(
                    source@,
                    width as int,
                    height as int,
                    format,
                    output@,
                    by * across + bx,
                );
            }
            bx = bx + 1;
        }
        assert(by * across + across == (by + 1) * across) by (nonlinear_arith);
        by = by + 1;
    }
    proof {
        assert(down * across == across * down) by (nonlinear_arith);
        all_decoded(source@, width as int, height as int, format, output@);
    }
    Ok(output)
}

} // verus!
