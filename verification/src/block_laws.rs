//! What the blocks of a compressed picture say of each of its pixels.

use vstd::prelude::*;
use vstd::arithmetic::power::{pow, lemma_pow_positive, lemma_pow0, lemma_pow1, lemma_pow_adds};
use crate::formats::UtxFormat;
use crate::dxt;
use crate::images;
use crate::bytes;

verus! {

proof fn shortened_is_quotient(value: int, base: int, i: nat)
    requires
        0 <= value,
        1 < base,
    ensures
        dxt::shortened(value, base, i) == value / pow(base, i),
        0 <= dxt::shortened(value, base, i),
    decreases i,
{
    lemma_pow_positive(base, i);
    if i == 0 {
        lemma_pow0(base);
    } else {
        let m = (i - 1) as nat;
        shortened_is_quotient(value, base, m);
        lemma_pow_positive(base, m);
        lemma_pow_adds(base, m, 1);
        lemma_pow1(base);
        vstd::arithmetic::div_mod::lemma_div_denominator(value, pow(base, m), base);
        let q = dxt::shortened(value, base, m);
        assert(0 <= q / base) by (nonlinear_arith)
            requires
                0 <= q,
                1 < base,
        ;
    }
}

proof fn shortened_twice(value: int, base: int, i: nat, j: nat)
    ensures
        dxt::shortened(value, base, i + j) == dxt::shortened(
            dxt::shortened(value, base, i),
            base,
            j,
        ),
    decreases j,
{
    if j > 0 {
        shortened_twice(value, base, i, (j - 1) as nat);
    }
}

/// The index of a color, two bits in the byte of its row.
pub open spec fn color_index(row: u8, x: int) -> u8 {
    if x == 0 {
        row % 4
    } else if x == 1 {
        row / 4 % 4
    } else if x == 2 {
        row / 16 % 4
    } else {
        row / 64
    }
}

proof fn quarter(value: int, low: int, high: int)
    requires
        value == low + 4 * high,
    ensures
        value / 4 == low / 4 + high,
        value % 4 == low % 4,
{
}

proof fn quads(value: int, low: int, high: int)
    requires
        value == low + 256 * high,
        0 <= low < 256,
        0 <= high,
    ensures
        dxt::shortened(value, 4, 0) % 4 == low % 4,
        dxt::shortened(value, 4, 1) % 4 == low / 4 % 4,
        dxt::shortened(value, 4, 2) % 4 == low / 16 % 4,
        dxt::shortened(value, 4, 3) % 4 == low / 64,
        dxt::shortened(value, 4, 4) == high,
{
    reveal_with_fuel(dxt::shortened, 5);
    let v1 = value / 4;
    let v2 = v1 / 4;
    let v3 = v2 / 4;
    quarter(value, low, 64 * high);
    quarter(v1, low / 4, 16 * high);
    quarter(v2, low / 4 / 4, 4 * high);
    quarter(v3, low / 4 / 4 / 4, high);
    let low1 = low / 4;
    let low2 = low1 / 4;
    let low3 = low2 / 4;
    assert(low2 == low / 16);
    assert(low3 == low / 64);
    assert(low3 / 4 == 0 && low3 % 4 == low3);
    assert(dxt::shortened(value, 4, 0) == value);
    assert(dxt::shortened(value, 4, 1) == v1);
    assert(dxt::shortened(value, 4, 2) == v2);
    assert(dxt::shortened(value, 4, 3) == v3);
    assert(dxt::shortened(value, 4, 4) == v3 / 4);
}

proof fn indices_stand_in_rows(b0: u8, b1: u8, b2: u8, b3: u8, x: int, y: int)
    requires
        0 <= x < 4,
        0 <= y < 4,
    ensures
        dxt::digit_in(b0 + 256 * (b1 + 256 * (b2 + 256 * b3)), 4, (y * 4 + x) as nat) == color_index(
            if y == 0 {
                b0
            } else if y == 1 {
                b1
            } else if y == 2 {
                b2
            } else {
                b3
            },
            x,
        ),
{
    let v3 = b3 as int;
    let v2 = b2 + 256 * v3;
    let v1 = b1 + 256 * v2;
    let v0 = b0 + 256 * v1;
    quads(v0, b0 as int, v1);
    quads(v1, b1 as int, v2);
    quads(v2, b2 as int, v3);
    quads(v3, b3 as int, 0);
    shortened_twice(v0, 4, 4, 4);
    shortened_twice(v0, 4, 8, 4);
    shortened_twice(v0, 4, (y * 4) as nat, x as nat);
    assert(dxt::shortened(v0, 4, 0) == v0);
}

/// Where the block of a pixel starts.
pub open spec fn block_start(width: int, format: UtxFormat, x: int, y: int) -> int {
    let k = (y / 4) * ((width + 3) / 4) + x / 4;
    if format == UtxFormat::Dxt1 {
        8 * k
    } else {
        16 * k
    }
}

/// Where the two colors of that block stand; the rows of indices follow them.
pub open spec fn colors_start(width: int, format: UtxFormat, x: int, y: int) -> int {
    block_start(width, format, x, y) + if format == UtxFormat::Dxt1 {
        0int
    } else {
        8
    }
}

proof fn blocks_stand_inside(width: int, height: int, format: UtxFormat, x: int, y: int)
    requires
        0 <= x < width,
        0 <= y < height,
    ensures
        ({
            let size = if format == UtxFormat::Dxt1 {
                8int
            } else {
                16
            };
            &&& images::block_len(format) == size
            &&& 0 <= block_start(width, format, x, y)
            &&& block_start(width, format, x, y) + size <= images::blocks_len(width, height, format)
            &&& dxt::block_of(width, x, y) * size == block_start(width, format, x, y)
        }),
{
    let over = (width + 3) / 4;
    let down = (height + 3) / 4;
    let k = (y / 4) * over + x / 4;
    assert(0 <= x / 4 < over && 0 <= y / 4 < down);
    assert(0 <= k && k + 1 <= down * over) by (nonlinear_arith)
        requires
            0 <= x / 4 < over,
            0 <= y / 4 < down,
            k == (y / 4) * over + x / 4,
    ;
    assert(over * down == down * over) by (nonlinear_arith);
}

/// Where the four bytes of a pixel stand in a picture.
proof fn pixels_stand_row_by_row(width: int, height: int, x: int, y: int)
    requires
        0 <= x < width,
        0 <= y < height,
    ensures
        ({
            let i = y * width + x;
            &&& 0 <= i < width * height
            &&& i % width == x
            &&& i / width == y
        }),
{
    let i = y * width + x;
    assert(0 <= i < width * height) by (nonlinear_arith)
        requires
            0 <= x < width,
            0 <= y < height,
            i == y * width + x,
    ;
    vstd::arithmetic::div_mod::lemma_fundamental_div_mod_converse(i, width, y, x);
}

/// What the decoded picture has for a pixel is what the bytes of its block give.
proof fn pixels_come_from_their_block(
    source: Seq<u8>,
    width: int,
    height: int,
    format: UtxFormat,
    x: int,
    y: int,
)
    requires
        0 <= x < width,
        0 <= y < height,
        dxt::decoded(source, width, height, format) is Ok,
    ensures
        ({
            let pixels = dxt::decoded(source, width, height, format)->Ok_0;
            let i = 4 * (y * width + x);
            let block = dxt::nth_block(source, format, dxt::block_of(width, x, y));
            let place = (y % 4) * 4 + x % 4;
            let at = block_start(width, format, x, y);
            let size = if format == UtxFormat::Dxt1 {
                8int
            } else {
                16
            };
            &&& pixels.len() == 4 * (width * height)
            &&& 0 <= i && i + 4 <= pixels.len()
            &&& pixels[i] == dxt::block_channel(block, format, place, 0)
            &&& pixels[i + 1] == dxt::block_channel(block, format, place, 1)
            &&& pixels[i + 2] == dxt::block_channel(block, format, place, 2)
            &&& pixels[i + 3] == dxt::block_channel(block, format, place, 3)
            &&& 0 <= at && at + size <= source.len()
            &&& block == source.subrange(at, at + size)
        }),
{
    let pixels = dxt::decoded(source, width, height, format)->Ok_0;
    let n = y * width + x;
    pixels_stand_row_by_row(width, height, x, y);
    blocks_stand_inside(width, height, format, x, y);
    assert((4 * n) / 4 == n && (4 * n) % 4 == 0);
    assert((4 * n + 1) / 4 == n && (4 * n + 1) % 4 == 1);
    assert((4 * n + 2) / 4 == n && (4 * n + 2) % 4 == 2);
    assert((4 * n + 3) / 4 == n && (4 * n + 3) % 4 == 3);
    assert(width * height * 4 == 4 * (width * height));
    assert(pixels[4 * n] == dxt::decoded_byte(source, width, format, 4 * n));
    assert(pixels[4 * n + 1] == dxt::decoded_byte(source, width, format, 4 * n + 1));
    assert(pixels[4 * n + 2] == dxt::decoded_byte(source, width, format, 4 * n + 2));
    assert(pixels[4 * n + 3] == dxt::decoded_byte(source, width, format, 4 * n + 3));
}

/// A color of a block: five bits of red, six of green, five of blue.
pub struct Color {
    pub red: int,
    pub green: int,
    pub blue: int,
}

/// Whether two bytes are a color: red stands in the highest bits, blue in the lowest.
pub open spec fn is_color(low: u8, high: u8, color: Color) -> bool {
    &&& 0 <= color.red < 32
    &&& 0 <= color.green < 64
    &&& 0 <= color.blue < 32
    &&& low + 256 * high == color.red * 2048 + color.green * 32 + color.blue
}

proof fn colors_have_channels(low: u8, high: u8, color: Color)
    requires
        is_color(low, high, color),
    ensures
        ({
            let c = (low + 256 * high) as u16;
            &&& dxt::channel_of(c, 0) == color.red * 255 / 31
            &&& dxt::channel_of(c, 1) == color.green * 255 / 63
            &&& dxt::channel_of(c, 2) == color.blue * 255 / 31
        }),
{
    let v = low + 256 * high;
    let c = v as u16;
    let (r, g, b) = (color.red, color.green, color.blue);
    vstd::arithmetic::div_mod::lemma_fundamental_div_mod_converse(v, 2048, r, g * 32 + b);
    vstd::arithmetic::div_mod::lemma_fundamental_div_mod_converse(v, 32, r * 64 + g, b);
    vstd::arithmetic::div_mod::lemma_fundamental_div_mod_converse(r * 64 + g, 64, r, g);
    assert(c as int == v);
    assert(0 <= r * 255 / 31 <= 255);
    assert(0 <= g * 255 / 63 <= 255);
    assert(0 <= b * 255 / 31 <= 255);
}

/// In a decoded picture the three first bytes of a pixel are red, green and blue, from 0
/// to 255. The two bits of the pixel in its block say which color it has: the first of the
/// block, the second, or one between them.
#[verifier::spinoff_prover]
#[verifier::rlimit(40)]
pub proof fn decoded_pixels_have_their_color(
    source: Seq<u8>,
    width: int,
    height: int,
    format: UtxFormat,
    x: int,
    y: int,
    first: Color,
    second: Color,
)
    requires
        0 <= x < width,
        0 <= y < height,
        dxt::decoded(source, width, height, format) is Ok,
        ({
            let at = colors_start(width, format, x, y);
            &&& is_color(source[at], source[at + 1], first)
            &&& is_color(source[at + 2], source[at + 3], second)
        }),
    ensures
        ({
            let pixels = dxt::decoded(source, width, height, format)->Ok_0;
            let i = 4 * (y * width + x);
            let at = colors_start(width, format, x, y);
            let larger = source[at] + 256 * source[at + 1] > source[at + 2] + 256 * source[at + 3];
            let row = source[at + 4 + y % 4];
            let index = if x % 4 == 0 {
                row % 4
            } else if x % 4 == 1 {
                row / 4 % 4
            } else if x % 4 == 2 {
                row / 16 % 4
            } else {
                row / 64
            };
            &&& pixels.len() == 4 * (width * height)
            &&& 0 <= i && i + 4 <= pixels.len()
            &&& index == 0 ==> {
                &&& pixels[i] == first.red * 255 / 31
                &&& pixels[i + 1] == first.green * 255 / 63
                &&& pixels[i + 2] == first.blue * 255 / 31
            }
            &&& index == 1 ==> {
                &&& pixels[i] == second.red * 255 / 31
                &&& pixels[i + 1] == second.green * 255 / 63
                &&& pixels[i + 2] == second.blue * 255 / 31
            }
            &&& index == 2 && larger ==> {
                &&& pixels[i] == (2 * (first.red * 255 / 31) + second.red * 255 / 31) / 3
                &&& pixels[i + 1] == (2 * (first.green * 255 / 63) + second.green * 255 / 63) / 3
                &&& pixels[i + 2] == (2 * (first.blue * 255 / 31) + second.blue * 255 / 31) / 3
            }
            &&& index == 3 && larger ==> {
                &&& pixels[i] == (first.red * 255 / 31 + 2 * (second.red * 255 / 31)) / 3
                &&& pixels[i + 1] == (first.green * 255 / 63 + 2 * (second.green * 255 / 63)) / 3
                &&& pixels[i + 2] == (first.blue * 255 / 31 + 2 * (second.blue * 255 / 31)) / 3
            }
            &&& index == 2 && !larger ==> {
                &&& pixels[i] == (first.red * 255 / 31 + second.red * 255 / 31) / 2
                &&& pixels[i + 1] == (first.green * 255 / 63 + second.green * 255 / 63) / 2
                &&& pixels[i + 2] == (first.blue * 255 / 31 + second.blue * 255 / 31) / 2
            }
            &&& index == 3 && !larger ==> {
                &&& pixels[i] == 0
                &&& pixels[i + 1] == 0
                &&& pixels[i + 2] == 0
            }
        }),
{
    let at = colors_start(width, format, x, y);
    let start = block_start(width, format, x, y);
    let off = at - start;
    pixels_come_from_their_block(source, width, height, format, x, y);
    let block = dxt::nth_block(source, format, dxt::block_of(width, x, y));
    assert(off == dxt::colors_at(format));
    let s0 = block.subrange(off, off + 2);
    let s1 = block.subrange(off + 2, off + 4);
    let s2 = block.subrange(off + 4, off + 8);
    assert(s0[0] == source[at] && s0[1] == source[at + 1]);
    assert(s1[0] == source[at + 2] && s1[1] == source[at + 3]);
    assert(s2[0] == source[at + 4] && s2[1] == source[at + 5]);
    assert(s2[2] == source[at + 6] && s2[3] == source[at + 7]);
    colors_have_channels(source[at], source[at + 1], first);
    colors_have_channels(source[at + 2], source[at + 3], second);
    indices_stand_in_rows(s2[0], s2[1], s2[2], s2[3], x % 4, y % 4);
    assert(bytes::u32_of(s2) as int == s2[0] + 256 * (s2[1] + 256 * (s2[2] + 256 * s2[3])));
}

#[verifier::spinoff_prover]
proof fn block_alphas(block: Seq<u8>, place: int)
    requires
        block.len() == 16,
        0 <= place < 16,
    ensures
        ({
            let bits = block[2] + 256 * block[3] + 65536 * block[4] + 16777216 * block[5]
                + 4294967296 * block[6] + 1099511627776 * block[7];
            let index = bits / pow(8, place as nat) % 8;
            &&& 0 <= index < 8
            &&& dxt::block_alpha(block, UtxFormat::Dxt5, place) == dxt::alpha_level(
                block[0],
                block[1],
                index,
            )
        }),
{
    let bits = block[2] + 256 * block[3] + 65536 * block[4] + 16777216 * block[5] + 4294967296
        * block[6] + 1099511627776 * block[7];
    assert(bits == dxt::alpha_bits(block));
    shortened_is_quotient(bits, 8, place as nat);
}

/// In a decoded DXT1 picture every pixel is opaque, but for the fourth color of a block
/// whose first color is not the larger: such a pixel is transparent.
#[verifier::spinoff_prover]
#[verifier::rlimit(40)]
pub proof fn dxt1_pixels_have_their_alpha(source: Seq<u8>, width: int, height: int, x: int, y: int)
    requires
        0 <= x < width,
        0 <= y < height,
        dxt::decoded(source, width, height, UtxFormat::Dxt1) is Ok,
    ensures
        ({
            let pixels = dxt::decoded(source, width, height, UtxFormat::Dxt1)->Ok_0;
            let i = 4 * (y * width + x);
            let at = block_start(width, UtxFormat::Dxt1, x, y);
            let larger = source[at] + 256 * source[at + 1] > source[at + 2] + 256 * source[at + 3];
            let index = color_index(source[at + 4 + y % 4], x % 4);
            pixels[i + 3] == if index == 3 && !larger {
                0int
            } else {
                255
            }
        }),
{
    let format = UtxFormat::Dxt1;
    let at = block_start(width, format, x, y);
    pixels_come_from_their_block(source, width, height, format, x, y);
    let block = dxt::nth_block(source, format, dxt::block_of(width, x, y));
    let s0 = block.subrange(0, 2);
    let s1 = block.subrange(2, 4);
    let s2 = block.subrange(4, 8);
    assert(s0[0] == source[at] && s0[1] == source[at + 1]);
    assert(s1[0] == source[at + 2] && s1[1] == source[at + 3]);
    assert(s2[0] == source[at + 4] && s2[1] == source[at + 5]);
    assert(s2[2] == source[at + 6] && s2[3] == source[at + 7]);
    indices_stand_in_rows(s2[0], s2[1], s2[2], s2[3], x % 4, y % 4);
    assert(bytes::u32_of(s2) as int == s2[0] + 256 * (s2[1] + 256 * (s2[2] + 256 * s2[3])));
}

/// In a decoded DXT3 picture the four bits of a pixel are its alpha, from 0 to 255. Two
/// pixels of a row share a byte, the left one has its low half.
#[verifier::spinoff_prover]
#[verifier::rlimit(40)]
pub proof fn dxt3_pixels_have_their_alpha(source: Seq<u8>, width: int, height: int, x: int, y: int)
    requires
        0 <= x < width,
        0 <= y < height,
        dxt::decoded(source, width, height, UtxFormat::Dxt3) is Ok,
    ensures
        ({
            let pixels = dxt::decoded(source, width, height, UtxFormat::Dxt3)->Ok_0;
            let i = 4 * (y * width + x);
            let at = block_start(width, UtxFormat::Dxt3, x, y);
            let byte = source[at + 2 * (y % 4) + (x % 4) / 2];
            &&& x % 2 == 0 ==> pixels[i + 3] == byte % 16 * 17
            &&& x % 2 == 1 ==> pixels[i + 3] == byte / 16 * 17
        }),
{
    let format = UtxFormat::Dxt3;
    let at = block_start(width, format, x, y);
    pixels_come_from_their_block(source, width, height, format, x, y);
    let block = dxt::nth_block(source, format, dxt::block_of(width, x, y));
    let place = (y % 4) * 4 + x % 4;
    assert(place / 2 == 2 * (y % 4) + (x % 4) / 2);
    assert(place % 2 == x % 2);
    assert(block[place / 2] == source[at + place / 2]);
}

/// In a decoded DXT5 picture the three bits of a pixel say which alpha of its block it
/// has: the first, the second, or one between them, and where the first is not the larger
/// also 0 and 255.
#[verifier::spinoff_prover]
#[verifier::rlimit(40)]
pub proof fn dxt5_pixels_have_their_alpha(source: Seq<u8>, width: int, height: int, x: int, y: int)
    requires
        0 <= x < width,
        0 <= y < height,
        dxt::decoded(source, width, height, UtxFormat::Dxt5) is Ok,
    ensures
        ({
            let pixels = dxt::decoded(source, width, height, UtxFormat::Dxt5)->Ok_0;
            let i = 4 * (y * width + x);
            let at = block_start(width, UtxFormat::Dxt5, x, y);
            let a0 = source[at];
            let a1 = source[at + 1];
            let bits = source[at + 2] + 256 * source[at + 3] + 65536 * source[at + 4] + 16777216
                * source[at + 5] + 4294967296 * source[at + 6] + 1099511627776 * source[at + 7];
            let index = bits / pow(8, (4 * (y % 4) + x % 4) as nat) % 8;
            &&& 0 <= index < 8
            &&& index == 0 ==> pixels[i + 3] == a0
            &&& index == 1 ==> pixels[i + 3] == a1
            &&& index > 1 && a0 > a1 ==> pixels[i + 3] == ((8 - index) * a0 + (index - 1) * a1) / 7
            &&& 1 < index < 6 && a0 <= a1 ==> pixels[i + 3] == ((6 - index) * a0 + (index - 1) * a1)
                / 5
            &&& index == 6 && a0 <= a1 ==> pixels[i + 3] == 0
            &&& index == 7 && a0 <= a1 ==> pixels[i + 3] == 255
        }),
{
    let format = UtxFormat::Dxt5;
    let at = block_start(width, format, x, y);
    pixels_come_from_their_block(source, width, height, format, x, y);
    let block = dxt::nth_block(source, format, dxt::block_of(width, x, y));
    let place = 4 * (y % 4) + x % 4;
    assert(block[0] == source[at] && block[1] == source[at + 1]);
    assert(block[2] == source[at + 2] && block[3] == source[at + 3]);
    assert(block[4] == source[at + 4] && block[5] == source[at + 5]);
    assert(block[6] == source[at + 6] && block[7] == source[at + 7]);
    let bits = source[at + 2] + 256 * source[at + 3] + 65536 * source[at + 4] + 16777216 * source[at
        + 5] + 4294967296 * source[at + 6] + 1099511627776 * source[at + 7];
    block_alphas(block, place);
    levels_are_bytes(block[0], block[1], bits / pow(8, place as nat) % 8);
}

proof fn levels_are_bytes(a0: u8, a1: u8, index: int)
    requires
        0 <= index < 8,
    ensures
        ({
            let level = dxt::alpha_level(a0, a1, index);
            &&& index == 0 ==> level == a0
            &&& index == 1 ==> level == a1
            &&& index > 1 && a0 > a1 ==> level == ((8 - index) * a0 + (index - 1) * a1) / 7
            &&& 1 < index < 6 && a0 <= a1 ==> level == ((6 - index) * a0 + (index - 1) * a1) / 5
            &&& index == 6 && a0 <= a1 ==> level == 0
            &&& index == 7 && a0 <= a1 ==> level == 255
        }),
{
    if index > 1 {
        assert(0 <= (8 - index) * a0 + (index - 1) * a1 <= 7 * 255) by (nonlinear_arith)
            requires
                1 < index < 8,
                0 <= a0 <= 255,
                0 <= a1 <= 255,
        ;
        if index < 6 {
            assert(0 <= (6 - index) * a0 + (index - 1) * a1 <= 5 * 255) by (nonlinear_arith)
                requires
                    1 < index < 6,
                    0 <= a0 <= 255,
                    0 <= a1 <= 255,
            ;
        }
    }
}

} // verus!
